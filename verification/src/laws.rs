//! Laws of the engine that relate several operations or hold of every
//! grid, stated over the model of `grid` and proved once and for all.

use vstd::prelude::*;
use vstd::arithmetic::div_mod::{lemma_fundamental_div_mod, lemma_mod_bound};
use crate::cell::Cell;
use crate::grid::{
    cell_at, is_next_generation, lemma_flat_index_bound, lemma_wrap_dec, lemma_wrap_inc,
    neighbor_count, next_cell, wrap_dec, wrap_inc,
};

verus! {

/// A neighbor count is never negative and never exceeds 8.
pub proof fn lemma_neighbor_count_range(s: Seq<Cell>, w: int, h: int, row: int, col: int)
    ensures
        0 <= neighbor_count(s, w, h, row, col) <= 8,
{
}

/// The positions a neighbor count reads: the eight toroidally wrapped
/// row/column step combinations around `(row, col)`.
pub open spec fn is_toroidal_neighbor(
    w: int,
    h: int,
    row: int,
    col: int,
    r: int,
    c: int,
) -> bool {
    let up = wrap_dec(row, h);
    let down = wrap_inc(row, h);
    let left = wrap_dec(col, w);
    let right = wrap_inc(col, w);
    ||| (r == up && c == left)
    ||| (r == up && c == col)
    ||| (r == up && c == right)
    ||| (r == row && c == left)
    ||| (r == row && c == right)
    ||| (r == down && c == left)
    ||| (r == down && c == col)
    ||| (r == down && c == right)
}

/// Locality: the neighbor count at `(row, col)` reads nothing but the
/// eight toroidal neighbor cells, so two grids that agree on those eight
/// cells give the same count, whatever they hold elsewhere.
pub proof fn lemma_neighbor_count_local(
    s1: Seq<Cell>,
    s2: Seq<Cell>,
    w: int,
    h: int,
    row: int,
    col: int,
)
    requires
        forall|r: int, c: int|
            is_toroidal_neighbor(w, h, row, col, r, c) ==> #[trigger] cell_at(s1, w, r, c)
                == cell_at(s2, w, r, c),
    ensures
        neighbor_count(s1, w, h, row, col) == neighbor_count(s2, w, h, row, col),
{
    let up = wrap_dec(row, h);
    let down = wrap_inc(row, h);
    let left = wrap_dec(col, w);
    let right = wrap_inc(col, w);
    assert(cell_at(s1, w, up, left) == cell_at(s2, w, up, left));
    assert(cell_at(s1, w, up, col) == cell_at(s2, w, up, col));
    assert(cell_at(s1, w, up, right) == cell_at(s2, w, up, right));
    assert(cell_at(s1, w, row, left) == cell_at(s2, w, row, left));
    assert(cell_at(s1, w, row, right) == cell_at(s2, w, row, right));
    assert(cell_at(s1, w, down, left) == cell_at(s2, w, down, left));
    assert(cell_at(s1, w, down, col) == cell_at(s2, w, down, col));
    assert(cell_at(s1, w, down, right) == cell_at(s2, w, down, right));
}

/// Toroidal wraparound: the neighbor count of the corner `(0, 0)` counts
/// the opposite corner `(h-1, w-1)`, so bringing that cell to life
/// strictly raises the corner's count.
pub proof fn lemma_corner_counts_opposite_corner(s1: Seq<Cell>, s2: Seq<Cell>, w: int, h: int)
    requires
        1 <= w,
        1 <= h,
        s1.len() == w * h,
        cell_at(s1, w, h - 1, w - 1) == Cell::Dead,
        s2 == s1.update((h - 1) * w + (w - 1), Cell::Alive),
    ensures
        neighbor_count(s2, w, h, 0, 0) > neighbor_count(s1, w, h, 0, 0),
{
    lemma_wrap_dec(0, h);
    lemma_wrap_dec(0, w);
    lemma_wrap_inc(0, h);
    lemma_wrap_inc(0, w);
    lemma_flat_index_bound(w, h, wrap_dec(0, h), wrap_dec(0, w));
    lemma_flat_index_bound(w, h, wrap_dec(0, h), 0);
    lemma_flat_index_bound(w, h, wrap_dec(0, h), wrap_inc(0, w));
    lemma_flat_index_bound(w, h, 0, wrap_dec(0, w));
    lemma_flat_index_bound(w, h, 0, wrap_inc(0, w));
    lemma_flat_index_bound(w, h, wrap_inc(0, h), wrap_dec(0, w));
    lemma_flat_index_bound(w, h, wrap_inc(0, h), 0);
    lemma_flat_index_bound(w, h, wrap_inc(0, h), wrap_inc(0, w));
    assert(cell_at(s2, w, wrap_dec(0, h), wrap_dec(0, w)) == Cell::Alive);
}

/// Two grids of the same dimensions that agree cell by cell are the same
/// sequence.
pub proof fn lemma_pointwise_equal_grids(s1: Seq<Cell>, s2: Seq<Cell>, w: int, h: int)
    requires
        1 <= w,
        1 <= h,
        s1.len() == w * h,
        s2.len() == w * h,
        forall|r: int, c: int|
            0 <= r < h && 0 <= c < w ==> #[trigger] cell_at(s1, w, r, c) == cell_at(s2, w, r, c),
    ensures
        s1 == s2,
{
    assert forall|k: int| 0 <= k < s1.len() implies s1[k] == s2[k] by {
        lemma_fundamental_div_mod(k, w);
        lemma_mod_bound(k, w);
        let r = k / w;
        let c = k % w;
        assert(0 <= r && r < h && r * w + c == k) by (nonlinear_arith)
            requires
                0 <= k < w * h,
                1 <= w,
                k == w * r + c,
                0 <= c < w,
        ;
        assert(cell_at(s1, w, r, c) == cell_at(s2, w, r, c));
    }
    assert(s1 =~= s2);
}

/// A 2-by-2 block of live cells with corner `(br, bc)` in an otherwise
/// dead grid.
pub open spec fn block_pattern(s: Seq<Cell>, w: int, h: int, br: int, bc: int) -> bool {
    forall|r: int, c: int|
        0 <= r < h && 0 <= c < w ==> #[trigger] cell_at(s, w, r, c) == (
        if br <= r <= br + 1 && bc <= c <= bc + 1 {
            Cell::Alive
        } else {
            Cell::Dead
        })
}

/// What one generation makes of one cell of a block grid: the block
/// cells stay alive and every other cell stays dead.
#[verifier::spinoff_prover]
#[verifier::rlimit(100)]
proof fn lemma_block_cell_step(s: Seq<Cell>, w: int, h: int, br: int, bc: int, r: int, c: int)
    requires
        3 <= w,
        3 <= h,
        0 <= br,
        br + 1 < h,
        0 <= bc,
        bc + 1 < w,
        block_pattern(s, w, h, br, bc),
        0 <= r < h,
        0 <= c < w,
    ensures
        next_cell(cell_at(s, w, r, c), neighbor_count(s, w, h, r, c)) == (
        if br <= r <= br + 1 && bc <= c <= bc + 1 {
            Cell::Alive
        } else {
            Cell::Dead
        }),
{
    lemma_wrap_dec(r, h);
    lemma_wrap_inc(r, h);
    lemma_wrap_dec(c, w);
    lemma_wrap_inc(c, w);
    let up = wrap_dec(r, h);
    let down = wrap_inc(r, h);
    let left = wrap_dec(c, w);
    let right = wrap_inc(c, w);
    assert(cell_at(s, w, up, left) == (if br <= up <= br + 1 && bc <= left <= bc + 1 {
        Cell::Alive
    } else {
        Cell::Dead
    }));
    assert(cell_at(s, w, up, c) == (if br <= up <= br + 1 && bc <= c <= bc + 1 {
        Cell::Alive
    } else {
        Cell::Dead
    }));
    assert(cell_at(s, w, up, right) == (if br <= up <= br + 1 && bc <= right <= bc + 1 {
        Cell::Alive
    } else {
        Cell::Dead
    }));
    assert(cell_at(s, w, r, left) == (if br <= r <= br + 1 && bc <= left <= bc + 1 {
        Cell::Alive
    } else {
        Cell::Dead
    }));
    assert(cell_at(s, w, r, right) == (if br <= r <= br + 1 && bc <= right <= bc + 1 {
        Cell::Alive
    } else {
        Cell::Dead
    }));
    assert(cell_at(s, w, down, left) == (if br <= down <= br + 1 && bc <= left <= bc + 1 {
        Cell::Alive
    } else {
        Cell::Dead
    }));
    assert(cell_at(s, w, down, c) == (if br <= down <= br + 1 && bc <= c <= bc + 1 {
        Cell::Alive
    } else {
        Cell::Dead
    }));
    assert(cell_at(s, w, down, right) == (if br <= down <= br + 1 && bc <= right <= bc + 1 {
        Cell::Alive
    } else {
        Cell::Dead
    }));
    assert(cell_at(s, w, r, c) == (if br <= r <= br + 1 && bc <= c <= bc + 1 {
        Cell::Alive
    } else {
        Cell::Dead
    }));
}

/// Two grids of the same dimensions that hold the same block pattern are
/// the same sequence.
proof fn lemma_block_grids_equal(s1: Seq<Cell>, s2: Seq<Cell>, w: int, h: int, br: int, bc: int)
    requires
        1 <= w,
        1 <= h,
        s1.len() == w * h,
        s2.len() == w * h,
        block_pattern(s1, w, h, br, bc),
        block_pattern(s2, w, h, br, bc),
    ensures
        s2 == s1,
{
    assert forall|r: int, c: int| 0 <= r < h && 0 <= c < w implies #[trigger] cell_at(s2, w, r, c)
        == cell_at(s1, w, r, c) by {}
    lemma_pointwise_equal_grids(s2, s1, w, h);
}

/// Still-life invariance: a 2-by-2 block of live cells in an otherwise
/// dead grid survives a generation unchanged, so by repetition it
/// survives any number of generations. The grid must be at least 3 cells
/// on each axis, or the wrapped block would touch itself.
#[verifier::spinoff_prover]
#[verifier::rlimit(100)]
pub proof fn lemma_block_still_life(s1: Seq<Cell>, s2: Seq<Cell>, w: int, h: int, br: int, bc: int)
    requires
        3 <= w,
        3 <= h,
        0 <= br,
        br + 1 < h,
        0 <= bc,
        bc + 1 < w,
        is_next_generation(s1, s2, w, h),
        block_pattern(s1, w, h, br, bc),
    ensures
        block_pattern(s2, w, h, br, bc),
        s2 == s1,
{
    assert forall|r: int, c: int| 0 <= r < h && 0 <= c < w implies #[trigger] cell_at(s2, w, r, c)
        == (if br <= r <= br + 1 && bc <= c <= bc + 1 {
        Cell::Alive
    } else {
        Cell::Dead
    }) by {
        lemma_block_cell_step(s1, w, h, br, bc, r, c);
        assert(cell_at(s2, w, r, c) == next_cell(
            cell_at(s1, w, r, c),
            neighbor_count(s1, w, h, r, c),
        ));
    }
    lemma_block_grids_equal(s1, s2, w, h, br, bc);
}

/// Still-life invariance over a whole run: along any chain of
/// generations that starts at a block grid, every generation is that
/// same grid.
pub proof fn lemma_block_survives_every_generation(
    gens: Seq<Seq<Cell>>,
    w: int,
    h: int,
    br: int,
    bc: int,
    i: int,
)
    requires
        3 <= w,
        3 <= h,
        0 <= br,
        br + 1 < h,
        0 <= bc,
        bc + 1 < w,
        0 <= i < gens.len(),
        gens[0].len() == w * h,
        block_pattern(gens[0], w, h, br, bc),
        forall|j: int| 0 <= j < i ==> #[trigger] is_next_generation(gens[j], gens[j + 1], w, h),
    ensures
        block_pattern(gens[i], w, h, br, bc),
        gens[i] == gens[0],
    decreases i,
{
    if i > 0 {
        lemma_block_survives_every_generation(gens, w, h, br, bc, i - 1);
        assert(is_next_generation(gens[i - 1], gens[(i - 1) + 1], w, h));
        lemma_block_still_life(gens[i - 1], gens[i], w, h, br, bc);
    }
}

/// A horizontal line of three live cells centered at `(r0, c0)` in an
/// otherwise dead grid.
pub open spec fn horizontal_blinker(s: Seq<Cell>, w: int, h: int, r0: int, c0: int) -> bool {
    forall|r: int, c: int|
        0 <= r < h && 0 <= c < w ==> #[trigger] cell_at(s, w, r, c) == (
        if r == r0 && c0 - 1 <= c <= c0 + 1 {
            Cell::Alive
        } else {
            Cell::Dead
        })
}

/// A vertical line of three live cells centered at `(r0, c0)` in an
/// otherwise dead grid.
pub open spec fn vertical_blinker(s: Seq<Cell>, w: int, h: int, r0: int, c0: int) -> bool {
    forall|r: int, c: int|
        0 <= r < h && 0 <= c < w ==> #[trigger] cell_at(s, w, r, c) == (
        if c == c0 && r0 - 1 <= r <= r0 + 1 {
            Cell::Alive
        } else {
            Cell::Dead
        })
}

/// One generation turns a horizontal blinker into the vertical blinker
/// with the same center. The center must sit two cells clear of every
/// edge, so the wrapped pattern has dead space all around.
pub proof fn lemma_blinker_horizontal_to_vertical(
    s1: Seq<Cell>,
    s2: Seq<Cell>,
    w: int,
    h: int,
    r0: int,
    c0: int,
)
    requires
        2 <= r0,
        r0 + 2 < h,
        2 <= c0,
        c0 + 2 < w,
        is_next_generation(s1, s2, w, h),
        horizontal_blinker(s1, w, h, r0, c0),
    ensures
        vertical_blinker(s2, w, h, r0, c0),
{
    assert forall|r: int, c: int| 0 <= r < h && 0 <= c < w implies #[trigger] cell_at(s2, w, r, c)
        == (if c == c0 && r0 - 1 <= r <= r0 + 1 {
        Cell::Alive
    } else {
        Cell::Dead
    }) by {
        lemma_wrap_dec(r, h);
        lemma_wrap_inc(r, h);
        lemma_wrap_dec(c, w);
        lemma_wrap_inc(c, w);
        assert(cell_at(s2, w, r, c) == next_cell(
            cell_at(s1, w, r, c),
            neighbor_count(s1, w, h, r, c),
        ));
    }
}

/// One generation turns a vertical blinker back into the horizontal
/// blinker with the same center, under the same clearance.
pub proof fn lemma_blinker_vertical_to_horizontal(
    s1: Seq<Cell>,
    s2: Seq<Cell>,
    w: int,
    h: int,
    r0: int,
    c0: int,
)
    requires
        2 <= r0,
        r0 + 2 < h,
        2 <= c0,
        c0 + 2 < w,
        is_next_generation(s1, s2, w, h),
        vertical_blinker(s1, w, h, r0, c0),
    ensures
        horizontal_blinker(s2, w, h, r0, c0),
{
    assert forall|r: int, c: int| 0 <= r < h && 0 <= c < w implies #[trigger] cell_at(s2, w, r, c)
        == (if r == r0 && c0 - 1 <= c <= c0 + 1 {
        Cell::Alive
    } else {
        Cell::Dead
    }) by {
        lemma_wrap_dec(r, h);
        lemma_wrap_inc(r, h);
        lemma_wrap_dec(c, w);
        lemma_wrap_inc(c, w);
        assert(cell_at(s2, w, r, c) == next_cell(
            cell_at(s1, w, r, c),
            neighbor_count(s1, w, h, r, c),
        ));
    }
}

/// Blinker oscillation with period 2: two generations after a horizontal
/// blinker the grid is exactly the original again, having passed through
/// the vertical blinker in between.
pub proof fn lemma_blinker_period_two(
    s1: Seq<Cell>,
    s2: Seq<Cell>,
    s3: Seq<Cell>,
    w: int,
    h: int,
    r0: int,
    c0: int,
)
    requires
        2 <= r0,
        r0 + 2 < h,
        2 <= c0,
        c0 + 2 < w,
        is_next_generation(s1, s2, w, h),
        is_next_generation(s2, s3, w, h),
        horizontal_blinker(s1, w, h, r0, c0),
    ensures
        vertical_blinker(s2, w, h, r0, c0),
        horizontal_blinker(s3, w, h, r0, c0),
        s3 == s1,
{
    lemma_blinker_horizontal_to_vertical(s1, s2, w, h, r0, c0);
    lemma_blinker_vertical_to_horizontal(s2, s3, w, h, r0, c0);
    assert forall|r: int, c: int| 0 <= r < h && 0 <= c < w implies #[trigger] cell_at(s3, w, r, c)
        == cell_at(s1, w, r, c) by {}
    lemma_pointwise_equal_grids(s3, s1, w, h);
}

/// Blinker oscillation over a whole run: along any chain of generations
/// that starts at a horizontal blinker, every even generation is the
/// horizontal blinker and every odd one the vertical blinker.
pub proof fn lemma_blinker_oscillates(
    gens: Seq<Seq<Cell>>,
    w: int,
    h: int,
    r0: int,
    c0: int,
    i: int,
)
    requires
        2 <= r0,
        r0 + 2 < h,
        2 <= c0,
        c0 + 2 < w,
        0 <= i < gens.len(),
        horizontal_blinker(gens[0], w, h, r0, c0),
        forall|j: int| 0 <= j < i ==> #[trigger] is_next_generation(gens[j], gens[j + 1], w, h),
    ensures
        i % 2 == 0 ==> horizontal_blinker(gens[i], w, h, r0, c0),
        i % 2 == 1 ==> vertical_blinker(gens[i], w, h, r0, c0),
    decreases i,
{
    if i > 0 {
        lemma_blinker_oscillates(gens, w, h, r0, c0, i - 1);
        assert(is_next_generation(gens[i - 1], gens[(i - 1) + 1], w, h));
        if (i - 1) % 2 == 0 {
            lemma_blinker_horizontal_to_vertical(gens[i - 1], gens[i], w, h, r0, c0);
        } else {
            lemma_blinker_vertical_to_horizontal(gens[i - 1], gens[i], w, h, r0, c0);
        }
    }
}

} // verus!

//! The mathematical model of a toroidal cell grid, and the executable
//! helpers shared by the engine: wrapped coordinate steps, flat row-major
//! indexing, neighbor counting and the generation rule.

use vstd::prelude::*;
use vstd::arithmetic::div_mod::{
    lemma_fundamental_div_mod_converse, lemma_mod_multiples_vanish, lemma_mod_self_0,
    lemma_small_mod,
};
use crate::cell::Cell;

verus! {

/// 1 for a live cell, 0 for a dead one; neighbor counts are sums of these.
pub open spec fn alive1(c: Cell) -> int {
    if c == Cell::Alive {
        1int
    } else {
        0int
    }
}

/// The cell of grid `s` (row-major, `w` columns) at `row`, `col`.
pub open spec fn cell_at(s: Seq<Cell>, w: int, row: int, col: int) -> Cell {
    s[row * w + col]
}

/// One step towards smaller indices, wrapping from 0 to `m - 1`.
pub open spec fn wrap_dec(x: int, m: int) -> int {
    (x + m - 1) % m
}

/// One step towards larger indices, wrapping from `m - 1` to 0.
pub open spec fn wrap_inc(x: int, m: int) -> int {
    (x + 1) % m
}

/// How many of the eight toroidal neighbors of `(row, col)` are alive.
/// The eight offsets combine a row step (up, none, down) with a column
/// step (left, none, right), skipping the no-step/no-step combination.
pub open spec fn neighbor_count(s: Seq<Cell>, w: int, h: int, row: int, col: int) -> int {
    alive1(cell_at(s, w, wrap_dec(row, h), wrap_dec(col, w)))
        + alive1(cell_at(s, w, wrap_dec(row, h), col))
        + alive1(cell_at(s, w, wrap_dec(row, h), wrap_inc(col, w)))
        + alive1(cell_at(s, w, row, wrap_dec(col, w)))
        + alive1(cell_at(s, w, row, wrap_inc(col, w)))
        + alive1(cell_at(s, w, wrap_inc(row, h), wrap_dec(col, w)))
        + alive1(cell_at(s, w, wrap_inc(row, h), col))
        + alive1(cell_at(s, w, wrap_inc(row, h), wrap_inc(col, w)))
}

/// The B3/S23 rule: what a cell with `n` live neighbors becomes.
pub open spec fn next_cell(c: Cell, n: int) -> Cell {
    match c {
        Cell::Alive => if 2 <= n <= 3 {
            Cell::Alive
        } else {
            Cell::Dead
        },
        Cell::Dead => if n == 3 {
            Cell::Alive
        } else {
            Cell::Dead
        },
    }
}

/// `s2` is the generation after `s1` on a `w` by `h` torus: every cell of
/// `s2` is determined by its old state and its old neighbor count alone.
pub open spec fn is_next_generation(s1: Seq<Cell>, s2: Seq<Cell>, w: int, h: int) -> bool {
    &&& s1.len() == w * h
    &&& s2.len() == s1.len()
    &&& forall|r: int, c: int|
        0 <= r < h && 0 <= c < w ==> #[trigger] cell_at(s2, w, r, c) == next_cell(
            cell_at(s1, w, r, c),
            neighbor_count(s1, w, h, r, c),
        )
}

/// The five cells of a glider anchored at `(row, col)`: the anchor, the
/// two cells above-left and above, the cell to the right, and the cell
/// below-left, every offset wrapped on its axis.
pub open spec fn glider_covers(w: int, h: int, row: int, col: int, r: int, c: int) -> bool {
    let up = wrap_dec(row, h);
    let down = wrap_inc(row, h);
    let left = wrap_dec(col, w);
    let right = wrap_inc(col, w);
    ||| (r == up && c == left)
    ||| (r == up && c == col)
    ||| (r == row && c == col)
    ||| (r == row && c == right)
    ||| (r == down && c == left)
}

/// The nine cells of a lightweight spaceship anchored at `(row, col)`,
/// every offset wrapped on its axis: four cells two rows up, the two
/// flanks one row up, one cell on the anchor row, and two one row down.
pub open spec fn spaceship_covers(w: int, h: int, row: int, col: int, r: int, c: int) -> bool {
    let rm2 = wrap_dec(wrap_dec(row, h), h);
    let rm1 = wrap_dec(row, h);
    let rp1 = wrap_inc(row, h);
    let cm2 = wrap_dec(wrap_dec(col, w), w);
    let cm1 = wrap_dec(col, w);
    let cp1 = wrap_inc(col, w);
    let cp2 = wrap_inc(wrap_inc(col, w), w);
    ||| (r == rm2 && (c == cm1 || c == col || c == cp1 || c == cp2))
    ||| (r == rm1 && (c == cm2 || c == cp2))
    ||| (r == row && c == cp2)
    ||| (r == rp1 && (c == cm2 || c == cp1))
}

/// The glyph that renders one cell: a filled square for a live cell, a
/// hollow square for a dead one.
pub open spec fn glyph(c: Cell) -> char {
    if c == Cell::Alive {
        '\u{25fc}'
    } else {
        '\u{25fb}'
    }
}

/// The first `upto` glyphs of row `row` of grid `s`.
pub open spec fn row_glyphs(s: Seq<Cell>, w: int, row: int, upto: int) -> Seq<char>
    decreases upto,
{
    if upto <= 0 {
        Seq::empty()
    } else {
        row_glyphs(s, w, row, upto - 1).push(glyph(cell_at(s, w, row, upto - 1)))
    }
}

/// The textual form of the first `rows` rows of grid `s`: each row is
/// `w` glyphs followed by a newline.
pub open spec fn render_rows(s: Seq<Cell>, w: int, rows: int) -> Seq<char>
    decreases rows,
{
    if rows <= 0 {
        Seq::empty()
    } else {
        render_rows(s, w, rows - 1) + row_glyphs(s, w, rows - 1, w).push('\n')
    }
}

/// The seeded initial state: the cell at flattened index `i` starts Alive
/// exactly when `i` is divisible by 2 or by 7.
pub open spec fn seed_cell(i: int) -> Cell {
    if i % 2 == 0 || i % 7 == 0 {
        Cell::Alive
    } else {
        Cell::Dead
    }
}

/// Wrapping one step back lands on `x - 1`, or on `m - 1` from 0.
pub proof fn lemma_wrap_dec(x: int, m: int)
    requires
        0 <= x < m,
    ensures
        wrap_dec(x, m) == if x == 0 { m - 1 } else { x - 1 },
        0 <= wrap_dec(x, m) < m,
{
    if x == 0 {
        lemma_small_mod((m - 1) as nat, m as nat);
    } else {
        lemma_mod_multiples_vanish(1, x - 1, m);
        lemma_small_mod((x - 1) as nat, m as nat);
    }
}

/// Wrapping one step forward lands on `x + 1`, or on 0 from `m - 1`.
pub proof fn lemma_wrap_inc(x: int, m: int)
    requires
        0 <= x < m,
    ensures
        wrap_inc(x, m) == if x == m - 1 { 0 } else { x + 1 },
        0 <= wrap_inc(x, m) < m,
{
    if x == m - 1 {
        lemma_mod_self_0(m);
    } else {
        lemma_small_mod((x + 1) as nat, m as nat);
    }
}

/// A flat row-major index stays within a `w` by `h` grid.
pub proof fn lemma_flat_index_bound(w: int, h: int, row: int, col: int)
    requires
        0 <= row < h,
        0 <= col < w,
    ensures
        0 <= row * w + col < h * w,
        h * w == w * h,
{
    assert(row * w + col < h * w && h * w == w * h) by (nonlinear_arith)
        requires
            0 <= row < h,
            0 <= col < w,
    ;
}

/// Flat row-major indexing is injective on in-range coordinates.
pub proof fn lemma_flat_index_inj(w: int, r1: int, c1: int, r2: int, c2: int)
    requires
        0 <= r1,
        0 <= r2,
        0 <= c1 < w,
        0 <= c2 < w,
        r1 * w + c1 == r2 * w + c2,
    ensures
        r1 == r2,
        c1 == c2,
{
    lemma_fundamental_div_mod_converse(r1 * w + c1, w, r1, c1);
    lemma_fundamental_div_mod_converse(r2 * w + c2, w, r2, c2);
}

/// A buffer of `n` Dead cells.
pub(crate) fn dead_cells(n: u32) -> (v: Vec<Cell>)
    ensures
        v@.len() == n,
        forall|k: int| 0 <= k < n ==> v@[k] == Cell::Dead,
{
    let mut v: Vec<Cell> = Vec::new();
    let mut i: u32 = 0;
    while i < n
        invariant
            i <= n,
            v@.len() == i,
            forall|k: int| 0 <= k < i ==> v@[k] == Cell::Dead,
        decreases n - i,
    {
        v.push(Cell::Dead);
        i = i + 1;
    }
    v
}

/// 1 when the cell of `cells` at `row`, `col` is alive, else 0.
fn cell_live(cells: &Vec<Cell>, w: u32, h: u32, row: u32, col: u32) -> (b: u8)
    requires
        w * h <= u32::MAX,
        cells@.len() == w * h,
        row < h,
        col < w,
    ensures
        b == alive1(cell_at(cells@, w as int, row as int, col as int)),
{
    proof {
        lemma_flat_index_bound(w as int, h as int, row as int, col as int);
    }
    let idx = (row * w + col) as usize;
    match cells[idx] {
        Cell::Alive => 1,
        Cell::Dead => 0,
    }
}

/// How many of the eight toroidal neighbors of `(row, col)` are alive.
pub(crate) fn count_live(cells: &Vec<Cell>, w: u32, h: u32, row: u32, col: u32) -> (count: u8)
    requires
        1 <= w,
        1 <= h,
        w * h <= u32::MAX,
        cells@.len() == w * h,
        row < h,
        col < w,
    ensures
        count == neighbor_count(cells@, w as int, h as int, row as int, col as int),
        count <= 8,
{
    let up = wrap_dec_u32(row, h);
    let down = wrap_inc_u32(row, h);
    let left = wrap_dec_u32(col, w);
    let right = wrap_inc_u32(col, w);
    let mut count: u8 = 0;
    count = count + cell_live(cells, w, h, up, left);
    count = count + cell_live(cells, w, h, up, col);
    count = count + cell_live(cells, w, h, up, right);
    count = count + cell_live(cells, w, h, row, left);
    count = count + cell_live(cells, w, h, row, right);
    count = count + cell_live(cells, w, h, down, left);
    count = count + cell_live(cells, w, h, down, col);
    count = count + cell_live(cells, w, h, down, right);
    count
}

/// The whole next generation of `cells`, read from `cells` alone: no
/// entry of the result depends on any other entry of the result.
pub(crate) fn next_generation(cells: &Vec<Cell>, w: u32, h: u32) -> (next: Vec<Cell>)
    requires
        1 <= w,
        1 <= h,
        w * h <= u32::MAX,
        cells@.len() == w * h,
    ensures
        is_next_generation(cells@, next@, w as int, h as int),
{
    let mut next: Vec<Cell> = Vec::new();
    let mut row: u32 = 0;
    while row < h
        invariant
            1 <= w,
            1 <= h,
            w * h <= u32::MAX,
            cells@.len() == w * h,
            row <= h,
            next@.len() == row * w,
            forall|r: int, c: int|
                0 <= r < row && 0 <= c < w ==> #[trigger] cell_at(next@, w as int, r, c)
                    == next_cell(
                    cell_at(cells@, w as int, r, c),
                    neighbor_count(cells@, w as int, h as int, r, c),
                ),
        decreases h - row,
    {
        let mut col: u32 = 0;
        while col < w
            invariant
                1 <= w,
                1 <= h,
                w * h <= u32::MAX,
                cells@.len() == w * h,
                row < h,
                col <= w,
                next@.len() == row * w + col,
                forall|r: int, c: int|
                    0 <= r < row && 0 <= c < w ==> #[trigger] cell_at(next@, w as int, r, c)
                        == next_cell(
                        cell_at(cells@, w as int, r, c),
                        neighbor_count(cells@, w as int, h as int, r, c),
                    ),
                forall|c: int|
                    0 <= c < col ==> #[trigger] cell_at(next@, w as int, row as int, c)
                        == next_cell(
                        cell_at(cells@, w as int, row as int, c),
                        neighbor_count(cells@, w as int, h as int, row as int, c),
                    ),
            decreases w - col,
        {
            proof {
                lemma_flat_index_bound(w as int, h as int, row as int, col as int);
            }
            let idx = (row * w + col) as usize;
            let cell = cells[idx];
            let n = count_live(cells, w, h, row, col);
            let stepped = match cell {
                Cell::Alive => if 2 <= n && n <= 3 {
                    Cell::Alive
                } else {
                    Cell::Dead
                },
                Cell::Dead => if n == 3 {
                    Cell::Alive
                } else {
                    Cell::Dead
                },
            };
            let ghost prev = next@;
            next.push(stepped);
            proof {
                assert forall|r: int, c: int|
                    0 <= r < row && 0 <= c < w implies #[trigger] cell_at(next@, w as int, r, c)
                    == next_cell(
                    cell_at(cells@, w as int, r, c),
                    neighbor_count(cells@, w as int, h as int, r, c),
                ) by {
                    lemma_flat_index_bound(w as int, row as int, r, c);
                    assert(r * w + c < row * w);
                    assert(cell_at(next@, w as int, r, c) == cell_at(prev, w as int, r, c));
                }
                assert forall|c: int|
                    0 <= c < col + 1 implies #[trigger] cell_at(next@, w as int, row as int, c)
                    == next_cell(
                    cell_at(cells@, w as int, row as int, c),
                    neighbor_count(cells@, w as int, h as int, row as int, c),
                ) by {
                    if c < col {
                        assert(cell_at(next@, w as int, row as int, c) == cell_at(
                            prev,
                            w as int,
                            row as int,
                            c,
                        ));
                    } else {
                        assert(cell_at(next@, w as int, row as int, c) == stepped);
                    }
                }
            }
            col = col + 1;
        }
        proof {
            assert(row * w + w == (row + 1) * w) by (nonlinear_arith);
            assert forall|r: int, c: int|
                0 <= r < row + 1 && 0 <= c < w implies #[trigger] cell_at(next@, w as int, r, c)
                == next_cell(
                cell_at(cells@, w as int, r, c),
                neighbor_count(cells@, w as int, h as int, r, c),
            ) by {
                if r == row {
                    assert(cell_at(next@, w as int, row as int, c) == next_cell(
                        cell_at(cells@, w as int, row as int, c),
                        neighbor_count(cells@, w as int, h as int, row as int, c),
                    ));
                }
            }
        }
        row = row + 1;
    }
    proof {
        assert(h as int * w as int == w as int * h as int) by (nonlinear_arith);
    }
    next
}

/// One step back along an axis of length `m`, wrapping from 0 to `m - 1`.
pub(crate) fn wrap_dec_u32(x: u32, m: u32) -> (r: u32)
    requires
        x < m,
    ensures
        r == wrap_dec(x as int, m as int),
        r < m,
{
    proof {
        lemma_wrap_dec(x as int, m as int);
    }
    if x == 0 {
        m - 1
    } else {
        x - 1
    }
}

/// One step forward along an axis of length `m`, wrapping from `m - 1` to 0.
pub(crate) fn wrap_inc_u32(x: u32, m: u32) -> (r: u32)
    requires
        x < m,
    ensures
        r == wrap_inc(x as int, m as int),
        r < m,
{
    proof {
        lemma_wrap_inc(x as int, m as int);
    }
    if x == m - 1 {
        0
    } else {
        x + 1
    }
}

} // verus!

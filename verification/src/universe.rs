//! The Grid Engine: the simulation state and every operation on it.

use vstd::prelude::*;
use vstd::string::StringExecFns;
use crate::cell::Cell;
use crate::grid::{
    cell_at, count_live, dead_cells, glider_covers, is_next_generation, lemma_flat_index_bound,
    lemma_flat_index_inj, neighbor_count, next_generation, render_rows, row_glyphs, seed_cell,
    spaceship_covers, wrap_dec_u32, wrap_inc_u32,
};

verus! {

/// The simulation state: a `width` by `height` toroidal grid of cells,
/// stored row-major (the cell at row `r`, column `c` lives at flattened
/// index `r * width + c`).
pub struct Universe {
    pub width: u32,
    pub height: u32,
    pub cells: Vec<Cell>,
}

impl Universe {
    /// The grid invariant: both dimensions are positive, their product
    /// fits the index arithmetic, and the buffer has exactly one cell
    /// per lattice point.
    pub open spec fn wf(self) -> bool {
        &&& 1 <= self.width
        &&& 1 <= self.height
        &&& self.width * self.height <= u32::MAX
        &&& self.cells@.len() == self.width * self.height
    }

    /// The cell at row `row`, column `col`.
    pub open spec fn at(self, row: int, col: int) -> Cell {
        cell_at(self.cells@, self.width as int, row, col)
    }

    /// `row`, `col` address a cell of this grid.
    pub open spec fn valid_pos(self, row: int, col: int) -> bool {
        0 <= row < self.height && 0 <= col < self.width
    }

    /// A fresh 64 by 64 grid with the deterministic seeded pattern:
    /// cell `i` starts Alive exactly when `i` is divisible by 2 or by 7.
    pub fn new() -> (u: Universe)
        ensures
            u.wf(),
            u.width == 64,
            u.height == 64,
            forall|i: int| 0 <= i < 64 * 64 ==> #[trigger] u.cells@[i] == seed_cell(i),
            forall|r: int, c: int| u.valid_pos(r, c) ==> #[trigger] u.at(r, c) == seed_cell(r * 64 + c),
    {
        let width: u32 = 64;
        let height: u32 = 64;
        let n: u32 = width * height;
        let mut cells: Vec<Cell> = Vec::new();
        let mut i: u32 = 0;
        while i < n
            invariant
                n == 64 * 64,
                i <= n,
                cells@.len() == i,
                forall|k: int| 0 <= k < i ==> cells@[k] == seed_cell(k),
            decreases n - i,
        {
            let c = if i % 2 == 0 || i % 7 == 0 {
                Cell::Alive
            } else {
                Cell::Dead
            };
            cells.push(c);
            i = i + 1;
        }
        Universe { width, height, cells }
    }

    /// The current number of columns.
    pub fn width(&self) -> (w: u32)
        ensures
            w == self.width,
    {
        self.width
    }

    /// The current number of rows.
    pub fn height(&self) -> (h: u32)
        ensures
            h == self.height,
    {
        self.height
    }

    /// The flattened row-major index of `(row, column)`. The caller must
    /// supply in-range coordinates; nothing wraps here.
    fn get_index(&self, row: u32, column: u32) -> (idx: usize)
        requires
            self.wf(),
            row < self.height,
            column < self.width,
        ensures
            idx == row as int * self.width as int + column as int,
            idx < self.cells@.len(),
    {
        proof {
            lemma_flat_index_bound(
                self.width as int,
                self.height as int,
                row as int,
                column as int,
            );
        }
        (row * self.width + column) as usize
    }

    /// How many of the eight toroidal neighbors of `(row, column)` are
    /// alive; both axes wrap, so the result is defined at every edge.
    pub fn live_neighbor_count(&self, row: u32, column: u32) -> (count: u8)
        requires
            self.wf(),
            row < self.height,
            column < self.width,
        ensures
            count == neighbor_count(
                self.cells@,
                self.width as int,
                self.height as int,
                row as int,
                column as int,
            ),
            count <= 8,
    {
        count_live(&self.cells, self.width, self.height, row, column)
    }

    /// A read-only view of the whole cell buffer, row-major.
    pub fn get_cells(&self) -> (r: &[Cell])
        ensures
            r@ == self.cells@,
    {
        self.cells.as_slice()
    }

    /// The cell buffer as a borrowed slice, for a host renderer to copy
    /// without re-encoding; the borrow ends at the next mutating call.
    pub fn cells(&self) -> (r: &[Cell])
        ensures
            r@ == self.cells@,
    {
        self.cells.as_slice()
    }

    /// Set every listed `(row, column)` cell to Alive and touch nothing
    /// else. Duplicates are harmless; coordinates must be in range.
    pub fn set_cells(&mut self, points: &[(u32, u32)])
        requires
            old(self).wf(),
            forall|k: int|
                0 <= k < points@.len() ==> (#[trigger] points@[k]).0 < old(self).height
                    && points@[k].1 < old(self).width,
        ensures
            final(self).wf(),
            final(self).width == old(self).width,
            final(self).height == old(self).height,
            forall|r: int, c: int|
                old(self).valid_pos(r, c) ==> #[trigger] final(self).at(r, c) == (
                if exists|k: int|
                    0 <= k < points@.len() && (#[trigger] points@[k]).0 == r && points@[k].1 == c {
                    Cell::Alive
                } else {
                    old(self).at(r, c)
                }),
    {
        let ghost w = old(self).width as int;
        let ghost h = old(self).height as int;
        let mut i: usize = 0;
        while i < points.len()
            invariant
                self.wf(),
                self.width == old(self).width,
                self.height == old(self).height,
                self.cells@.len() == old(self).cells@.len(),
                w == old(self).width as int,
                h == old(self).height as int,
                i <= points@.len(),
                forall|k: int|
                    0 <= k < points@.len() ==> (#[trigger] points@[k]).0 < old(self).height
                        && points@[k].1 < old(self).width,
                forall|r: int, c: int|
                    old(self).valid_pos(r, c) ==> #[trigger] self.at(r, c) == (
                    if exists|k: int|
                        0 <= k < i && (#[trigger] points@[k]).0 == r && points@[k].1 == c {
                        Cell::Alive
                    } else {
                        old(self).at(r, c)
                    }),
            decreases points@.len() - i,
        {
            let ghost entry = *self;
            let (row, col) = points[i];
            let idx = self.get_index(row, col);
            self.cells[idx] = Cell::Alive;
            proof {
                assert forall|r: int, c: int| old(self).valid_pos(r, c) implies #[trigger] self.at(
                    r,
                    c,
                ) == (if exists|k: int|
                    0 <= k < i + 1 && (#[trigger] points@[k]).0 == r && points@[k].1 == c {
                    Cell::Alive
                } else {
                    old(self).at(r, c)
                }) by {
                    lemma_flat_index_bound(w, h, r, c);
                    assert(entry.at(r, c) == (if exists|k: int|
                        0 <= k < i && (#[trigger] points@[k]).0 == r && points@[k].1 == c {
                        Cell::Alive
                    } else {
                        old(self).at(r, c)
                    }));
                    assert(self.cells@ == entry.cells@.update(idx as int, Cell::Alive));
                    if r * w + c == idx {
                        lemma_flat_index_inj(w, r, c, row as int, col as int);
                        assert(points@[i as int].0 == r && points@[i as int].1 == c);
                        assert(self.at(r, c) == Cell::Alive);
                    } else {
                        assert(self.at(r, c) == entry.at(r, c));
                        if exists|k: int|
                            0 <= k < i + 1 && (#[trigger] points@[k]).0 == r && points@[k].1
                                == c {
                            let k = choose|k: int|
                                0 <= k < i + 1 && (#[trigger] points@[k]).0 == r && points@[k].1
                                    == c;
                            if k == i {
                                assert(r == row as int && c == col as int);
                            } else {
                                assert(0 <= k < i && points@[k].0 == r && points@[k].1 == c);
                            }
                        }
                    }
                }
            }
            i = i + 1;
        }
    }

    /// The textual rendering: one line per row, a filled square for each
    /// live cell and a hollow square for each dead one, every row ended
    /// by a newline.
    pub fn render(&self) -> (out: String)
        requires
            self.wf(),
        ensures
            out@ == render_rows(self.cells@, self.width as int, self.height as int),
    {
        let ghost w = self.width as int;
        let ghost h = self.height as int;
        let mut out = String::new();
        let mut row: u32 = 0;
        while row < self.height
            invariant
                self.wf(),
                w == self.width as int,
                h == self.height as int,
                row <= self.height,
                out@ == render_rows(self.cells@, w, row as int),
            decreases self.height - row,
        {
            let mut col: u32 = 0;
            while col < self.width
                invariant
                    self.wf(),
                    w == self.width as int,
                    h == self.height as int,
                    row < self.height,
                    col <= self.width,
                    out@ == render_rows(self.cells@, w, row as int) + row_glyphs(
                        self.cells@,
                        w,
                        row as int,
                        col as int,
                    ),
                decreases self.width - col,
            {
                proof {
                    lemma_flat_index_bound(w, h, row as int, col as int);
                }
                let idx = (row * self.width + col) as usize;
                let alive = match self.cells[idx] {
                    Cell::Alive => true,
                    Cell::Dead => false,
                };
                if alive {
                    out.append("\u{25fc}");
                    proof {
                        reveal_strlit("\u{25fc}");
                        assert(out@ =~= render_rows(self.cells@, w, row as int) + row_glyphs(
                            self.cells@,
                            w,
                            row as int,
                            col as int + 1,
                        ));
                    }
                } else {
                    out.append("\u{25fb}");
                    proof {
                        reveal_strlit("\u{25fb}");
                        assert(out@ =~= render_rows(self.cells@, w, row as int) + row_glyphs(
                            self.cells@,
                            w,
                            row as int,
                            col as int + 1,
                        ));
                    }
                }
                col = col + 1;
            }
            out.append("\n");
            proof {
                reveal_strlit("\n");
                assert(out@ =~= render_rows(self.cells@, w, row as int + 1));
            }
            row = row + 1;
        }
        out
    }

    /// Replace the grid with its next generation under the B3/S23 rule.
    /// The new buffer is computed from the old one alone and swapped in
    /// whole, so no cell's update can observe another cell's new state.
    pub fn tick(&mut self)
        requires
            old(self).wf(),
        ensures
            final(self).wf(),
            final(self).width == old(self).width,
            final(self).height == old(self).height,
            is_next_generation(
                old(self).cells@,
                final(self).cells@,
                old(self).width as int,
                old(self).height as int,
            ),
    {
        let next = next_generation(&self.cells, self.width, self.height);
        self.cells = next;
    }

    /// Flip exactly the cell at `(row, column)`; coordinates must be in
    /// range (they do not wrap here).
    pub fn toggle_cell(&mut self, row: u32, column: u32)
        requires
            old(self).wf(),
            row < old(self).height,
            column < old(self).width,
        ensures
            final(self).wf(),
            final(self).width == old(self).width,
            final(self).height == old(self).height,
            final(self).at(row as int, column as int) == old(self).at(
                row as int,
                column as int,
            ).flipped(),
            forall|r: int, c: int|
                old(self).valid_pos(r, c) && !(r == row as int && c == column as int)
                    ==> #[trigger] final(self).at(r, c) == old(self).at(r, c),
    {
        let ghost w = old(self).width as int;
        let ghost h = old(self).height as int;
        let idx = self.get_index(row, column);
        let mut cell = self.cells[idx];
        cell.toggle();
        self.cells[idx] = cell;
        proof {
            assert forall|r: int, c: int|
                old(self).valid_pos(r, c) && !(r == row as int && c == column as int)
                    implies #[trigger] self.at(r, c) == old(self).at(r, c) by {
                lemma_flat_index_bound(w, h, r, c);
                if r * w + c == idx {
                    lemma_flat_index_inj(w, r, c, row as int, column as int);
                }
            }
        }
    }

    /// Stamp the five-cell glider anchored at `(row, column)`, each
    /// offset wrapped on its axis; every other cell keeps its state.
    pub fn create_glider(&mut self, row: u32, column: u32)
        requires
            old(self).wf(),
            row < old(self).height,
            column < old(self).width,
        ensures
            final(self).wf(),
            final(self).width == old(self).width,
            final(self).height == old(self).height,
            forall|r: int, c: int|
                old(self).valid_pos(r, c) ==> #[trigger] final(self).at(r, c) == (
                if glider_covers(
                    old(self).width as int,
                    old(self).height as int,
                    row as int,
                    column as int,
                    r,
                    c,
                ) {
                    Cell::Alive
                } else {
                    old(self).at(r, c)
                }),
    {
        let ghost w = old(self).width as int;
        let ghost h = old(self).height as int;
        let up = wrap_dec_u32(row, self.height);
        let down = wrap_inc_u32(row, self.height);
        let left = wrap_dec_u32(column, self.width);
        let right = wrap_inc_u32(column, self.width);
        let mut pts: Vec<(u32, u32)> = Vec::new();
        pts.push((up, left));
        pts.push((up, column));
        pts.push((row, column));
        pts.push((row, right));
        pts.push((down, left));
        proof {
            assert(pts@.len() == 5);
            assert(pts@[0] == (up, left));
            assert(pts@[1] == (up, column));
            assert(pts@[2] == (row, column));
            assert(pts@[3] == (row, right));
            assert(pts@[4] == (down, left));
        }
        self.set_cells(pts.as_slice());
        proof {
            assert forall|r: int, c: int| old(self).valid_pos(r, c) implies #[trigger] self.at(
                r,
                c,
            ) == (if glider_covers(w, h, row as int, column as int, r, c) {
                Cell::Alive
            } else {
                old(self).at(r, c)
            }) by {
                if glider_covers(w, h, row as int, column as int, r, c) {
                    if r == up as int && c == left as int {
                        assert(pts@[0].0 == r && pts@[0].1 == c);
                    } else if r == up as int && c == column as int {
                        assert(pts@[1].0 == r && pts@[1].1 == c);
                    } else if r == row as int && c == column as int {
                        assert(pts@[2].0 == r && pts@[2].1 == c);
                    } else if r == row as int && c == right as int {
                        assert(pts@[3].0 == r && pts@[3].1 == c);
                    } else {
                        assert(pts@[4].0 == r && pts@[4].1 == c);
                    }
                    assert(exists|k: int|
                        0 <= k < pts@.len() && (#[trigger] pts@[k]).0 == r && pts@[k].1 == c);
                } else {
                    if exists|k: int|
                        0 <= k < pts@.len() && (#[trigger] pts@[k]).0 == r && pts@[k].1 == c {
                        let k = choose|k: int|
                            0 <= k < pts@.len() && (#[trigger] pts@[k]).0 == r && pts@[k].1 == c;
                        assert(0 <= k < 5);
                        assert(glider_covers(w, h, row as int, column as int, r, c));
                    }
                }
            }
        }
    }

    /// Stamp the nine-cell lightweight-spaceship shape anchored at
    /// `(row, column)`, each offset wrapped on its axis; every other
    /// cell keeps its state.
    pub fn create_spaceship(&mut self, row: u32, col: u32)
        requires
            old(self).wf(),
            row < old(self).height,
            col < old(self).width,
        ensures
            final(self).wf(),
            final(self).width == old(self).width,
            final(self).height == old(self).height,
            forall|r: int, c: int|
                old(self).valid_pos(r, c) ==> #[trigger] final(self).at(r, c) == (
                if spaceship_covers(
                    old(self).width as int,
                    old(self).height as int,
                    row as int,
                    col as int,
                    r,
                    c,
                ) {
                    Cell::Alive
                } else {
                    old(self).at(r, c)
                }),
    {
        let ghost w = old(self).width as int;
        let ghost h = old(self).height as int;
        let rm1 = wrap_dec_u32(row, self.height);
        let rm2 = wrap_dec_u32(rm1, self.height);
        let rp1 = wrap_inc_u32(row, self.height);
        let cm1 = wrap_dec_u32(col, self.width);
        let cm2 = wrap_dec_u32(cm1, self.width);
        let cp1 = wrap_inc_u32(col, self.width);
        let cp2 = wrap_inc_u32(cp1, self.width);
        let mut pts: Vec<(u32, u32)> = Vec::new();
        pts.push((rm2, cm1));
        pts.push((rm2, col));
        pts.push((rm2, cp1));
        pts.push((rm2, cp2));
        pts.push((rm1, cm2));
        pts.push((rm1, cp2));
        pts.push((row, cp2));
        pts.push((rp1, cm2));
        pts.push((rp1, cp1));
        proof {
            assert(pts@.len() == 9);
            assert(pts@[0] == (rm2, cm1));
            assert(pts@[1] == (rm2, col));
            assert(pts@[2] == (rm2, cp1));
            assert(pts@[3] == (rm2, cp2));
            assert(pts@[4] == (rm1, cm2));
            assert(pts@[5] == (rm1, cp2));
            assert(pts@[6] == (row, cp2));
            assert(pts@[7] == (rp1, cm2));
            assert(pts@[8] == (rp1, cp1));
        }
        self.set_cells(pts.as_slice());
        proof {
            assert forall|r: int, c: int| old(self).valid_pos(r, c) implies #[trigger] self.at(
                r,
                c,
            ) == (if spaceship_covers(w, h, row as int, col as int, r, c) {
                Cell::Alive
            } else {
                old(self).at(r, c)
            }) by {
                if spaceship_covers(w, h, row as int, col as int, r, c) {
                    if r == rm2 as int && c == cm1 as int {
                        assert(pts@[0].0 == r && pts@[0].1 == c);
                    } else if r == rm2 as int && c == col as int {
                        assert(pts@[1].0 == r && pts@[1].1 == c);
                    } else if r == rm2 as int && c == cp1 as int {
                        assert(pts@[2].0 == r && pts@[2].1 == c);
                    } else if r == rm2 as int && c == cp2 as int {
                        assert(pts@[3].0 == r && pts@[3].1 == c);
                    } else if r == rm1 as int && c == cm2 as int {
                        assert(pts@[4].0 == r && pts@[4].1 == c);
                    } else if r == rm1 as int && c == cp2 as int {
                        assert(pts@[5].0 == r && pts@[5].1 == c);
                    } else if r == row as int && c == cp2 as int {
                        assert(pts@[6].0 == r && pts@[6].1 == c);
                    } else if r == rp1 as int && c == cm2 as int {
                        assert(pts@[7].0 == r && pts@[7].1 == c);
                    } else {
                        assert(pts@[8].0 == r && pts@[8].1 == c);
                    }
                    assert(exists|k: int|
                        0 <= k < pts@.len() && (#[trigger] pts@[k]).0 == r && pts@[k].1 == c);
                } else {
                    if exists|k: int|
                        0 <= k < pts@.len() && (#[trigger] pts@[k]).0 == r && pts@[k].1 == c {
                        let k = choose|k: int|
                            0 <= k < pts@.len() && (#[trigger] pts@[k]).0 == r && pts@[k].1 == c;
                        assert(0 <= k < 9);
                        assert(spaceship_covers(w, h, row as int, col as int, r, c));
                    }
                }
            }
        }
    }

    /// Set every cell to Dead, keeping the current dimensions.
    pub fn clean(&mut self)
        requires
            old(self).wf(),
        ensures
            final(self).wf(),
            final(self).width == old(self).width,
            final(self).height == old(self).height,
            forall|k: int| 0 <= k < final(self).cells@.len() ==> final(self).cells@[k] == Cell::Dead,
            forall|r: int, c: int|
                final(self).valid_pos(r, c) ==> #[trigger] final(self).at(r, c) == Cell::Dead,
    {
        let n = self.width * self.height;
        self.cells = dead_cells(n);
        proof {
            assert forall|r: int, c: int| self.valid_pos(r, c) implies #[trigger] self.at(r, c)
                == Cell::Dead by {
                lemma_flat_index_bound(self.width as int, self.height as int, r, c);
            }
        }
    }

    /// Change the width and reallocate the buffer as all-Dead, sized to
    /// the new width times the current height. Prior content is lost.
    pub fn set_width(&mut self, width: u32)
        requires
            old(self).wf(),
            1 <= width,
            width * old(self).height <= u32::MAX,
        ensures
            final(self).wf(),
            final(self).width == width,
            final(self).height == old(self).height,
            final(self).cells@.len() == width * old(self).height,
            forall|k: int| 0 <= k < final(self).cells@.len() ==> final(self).cells@[k] == Cell::Dead,
    {
        self.width = width;
        let n = self.width * self.height;
        self.cells = dead_cells(n);
    }

    /// Change the height and reallocate the buffer as all-Dead, sized to
    /// the current width times the new height. Prior content is lost.
    pub fn set_height(&mut self, height: u32)
        requires
            old(self).wf(),
            1 <= height,
            old(self).width * height <= u32::MAX,
        ensures
            final(self).wf(),
            final(self).width == old(self).width,
            final(self).height == height,
            final(self).cells@.len() == old(self).width * height,
            forall|k: int| 0 <= k < final(self).cells@.len() ==> final(self).cells@[k] == Cell::Dead,
    {
        self.height = height;
        let n = self.width * self.height;
        self.cells = dead_cells(n);
    }
}

} // verus!

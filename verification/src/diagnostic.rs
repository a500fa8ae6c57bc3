use vstd::prelude::*;
use crate::cell::Cell;
use crate::coords::lemma_push_contains;
use crate::grid::{
    advance, cell_at, dead, dead_cells, flat_index, grid_index, in_bounds,
    lemma_flat_index_injective, next_generation, seeded, seeded_cells, step, valid_dims,
};

verus! {

/// The simulation grid for host-side inspection and editing: the buffer can
/// be read whole, bulk-written, and reallocated at new dimensions.
pub struct DiagnosticUniverse {
    width: u32,
    height: u32,
    cells: Vec<Cell>,
}

impl DiagnosticUniverse {
    /// Grid width, as a mathematical integer.
    pub closed spec fn spec_width(&self) -> int {
        self.width as int
    }

    /// Grid height, as a mathematical integer.
    pub closed spec fn spec_height(&self) -> int {
        self.height as int
    }

    /// The cell buffer, in row-major order.
    pub closed spec fn grid(&self) -> Seq<Cell> {
        self.cells@
    }

    /// Structural invariant: positive dimensions whose product fits in u32
    /// and a buffer of exactly width * height cells.
    pub open spec fn wf(&self) -> bool {
        &&& valid_dims(self.spec_width(), self.spec_height())
        &&& self.grid().len() == self.spec_width() * self.spec_height()
    }

    /// A fresh square universe of `size` x `size` cells, deterministically
    /// seeded: the cell at flat index i starts Alive exactly when i is even
    /// or divisible by 7.
    pub fn new(size: u32) -> (universe: DiagnosticUniverse)
        requires
            1 <= size,
            size as int * size as int <= u32::MAX,
        ensures
            universe.wf(),
            universe.spec_width() == size,
            universe.spec_height() == size,
            universe.grid() == seeded(size as int * size as int),
    {
        let len = (size as u64 * size as u64) as u32;
        let cells = seeded_cells(len);
        DiagnosticUniverse { width: size, height: size, cells }
    }

    /// The width of the grid in cells.
    pub fn width(&self) -> (w: u32)
        ensures
            w as int == self.spec_width(),
    {
        self.width
    }

    /// The height of the grid in cells.
    pub fn height(&self) -> (h: u32)
        ensures
            h as int == self.spec_height(),
    {
        self.height
    }

    /// Row-major flat index of (row, column); coordinates must be in bounds.
    pub fn get_index(&self, row: u32, column: u32) -> (i: usize)
        requires
            self.wf(),
            in_bounds(self.spec_width(), self.spec_height(), row as int, column as int),
        ensures
            i == flat_index(self.spec_width(), row as int, column as int),
            i < self.grid().len(),
    {
        grid_index(self.width, self.height, row, column)
    }

    /// The cell at a flat index.
    pub fn cell(&self, i: usize) -> (cell: Cell)
        requires
            i < self.grid().len(),
        ensures
            cell == self.grid()[i as int],
    {
        self.cells[i]
    }

    /// The whole cell buffer, lent read-only. This replaces handing out the
    /// buffer's raw address: the host reads the same cells, but never while
    /// a tick is mutating them.
    pub fn get_cells(&self) -> (cells: &Vec<Cell>)
        ensures
            cells@ == self.grid(),
    {
        &self.cells
    }

    /// Forces every listed (row, column) to Alive, in order, leaving every
    /// unlisted cell as it was. Cells are not cleared first.
    pub fn set_cells(&mut self, coords: &Vec<(u32, u32)>)
        requires
            old(self).wf(),
            forall|k: int|
                0 <= k < coords@.len() ==> in_bounds(
                    old(self).spec_width(),
                    old(self).spec_height(),
                    (#[trigger] coords@[k]).0 as int,
                    coords@[k].1 as int,
                ),
        ensures
            final(self).wf(),
            final(self).spec_width() == old(self).spec_width(),
            final(self).spec_height() == old(self).spec_height(),
            forall|r: int, c: int|
                in_bounds(old(self).spec_width(), old(self).spec_height(), r, c)
                    ==> #[trigger] cell_at(final(self).grid(), old(self).spec_width(), r, c) == (
                if coords@.contains((r as u32, c as u32)) {
                    Cell::Alive
                } else {
                    cell_at(old(self).grid(), old(self).spec_width(), r, c)
                }),
    {
        let ghost w = self.width as int;
        let ghost h = self.height as int;
        let ghost before = self.cells@;
        let mut j: usize = 0;
        while j < coords.len()
            invariant
                valid_dims(w, h),
                self.width as int == w,
                self.height as int == h,
                self.cells@.len() == w * h,
                before.len() == w * h,
                j <= coords@.len(),
                forall|k: int|
                    0 <= k < coords@.len() ==> in_bounds(
                        w,
                        h,
                        (#[trigger] coords@[k]).0 as int,
                        coords@[k].1 as int,
                    ),
                forall|r: int, c: int|
                    in_bounds(w, h, r, c) ==> #[trigger] cell_at(self.cells@, w, r, c) == (
                    if coords@.subrange(0, j as int).contains((r as u32, c as u32)) {
                        Cell::Alive
                    } else {
                        cell_at(before, w, r, c)
                    }),
            decreases coords@.len() - j,
        {
            let p = coords[j];
            let i = grid_index(self.width, self.height, p.0, p.1);
            let ghost prev = self.cells@;
            proof {
                assert(coords@.subrange(0, j as int + 1) =~= coords@.subrange(0, j as int).push(
                    coords@[j as int],
                ));
                lemma_push_contains(coords@.subrange(0, j as int), coords@[j as int]);
            }
            self.cells[i] = Cell::Alive;
            proof {
                assert forall|r: int, c: int| in_bounds(w, h, r, c) implies #[trigger] cell_at(
                    self.cells@,
                    w,
                    r,
                    c,
                ) == (if coords@.subrange(0, j as int + 1).contains((r as u32, c as u32)) {
                    Cell::Alive
                } else {
                    cell_at(before, w, r, c)
                }) by {
                    crate::grid::lemma_flat_index_bounds(w, h, r, c);
                    assert(cell_at(prev, w, r, c) == (if coords@.subrange(
                        0,
                        j as int,
                    ).contains((r as u32, c as u32)) {
                        Cell::Alive
                    } else {
                        cell_at(before, w, r, c)
                    }));
                    if flat_index(w, r, c) == flat_index(w, p.0 as int, p.1 as int) {
                        lemma_flat_index_injective(w, h, r, c, p.0 as int, p.1 as int);
                    }
                }
            }
            j += 1;
        }
        proof {
            assert(coords@.subrange(0, coords@.len() as int) =~= coords@);
        }
    }

    /// Reallocates the buffer to all-Dead at the new width, keeping the
    /// height; no prior cell value survives.
    pub fn set_width(&mut self, width: u32)
        requires
            old(self).wf(),
            1 <= width,
            width as int * old(self).spec_height() <= u32::MAX,
        ensures
            final(self).wf(),
            final(self).spec_width() == width,
            final(self).spec_height() == old(self).spec_height(),
            final(self).grid() == dead(width as int * old(self).spec_height()),
    {
        let len = (width as u64 * self.height as u64) as u32;
        self.cells = dead_cells(len);
        self.width = width;
    }

    /// Reallocates the buffer to all-Dead at the new height, keeping the
    /// width; no prior cell value survives.
    pub fn set_height(&mut self, height: u32)
        requires
            old(self).wf(),
            1 <= height,
            old(self).spec_width() * height as int <= u32::MAX,
        ensures
            final(self).wf(),
            final(self).spec_width() == old(self).spec_width(),
            final(self).spec_height() == height,
            final(self).grid() == dead(old(self).spec_width() * height as int),
    {
        let len = (self.width as u64 * height as u64) as u32;
        self.cells = dead_cells(len);
        self.height = height;
    }

    /// Flips exactly the cell at (row, column), leaving every other cell and
    /// both dimensions untouched.
    pub fn toggle_cell(&mut self, row: u32, column: u32)
        requires
            old(self).wf(),
            in_bounds(old(self).spec_width(), old(self).spec_height(), row as int, column as int),
        ensures
            final(self).wf(),
            final(self).spec_width() == old(self).spec_width(),
            final(self).spec_height() == old(self).spec_height(),
            final(self).grid() == old(self).grid().update(
                flat_index(old(self).spec_width(), row as int, column as int),
                old(self).grid()[flat_index(old(self).spec_width(), row as int, column as int)].flipped(),
            ),
    {
        let i = grid_index(self.width, self.height, row, column);
        self.cells[i].toggle();
    }

    /// One synchronous generation: the next buffer is computed whole from
    /// the old one, then replaces it.
    pub fn tick(&mut self)
        requires
            old(self).wf(),
        ensures
            final(self).wf(),
            final(self).spec_width() == old(self).spec_width(),
            final(self).spec_height() == old(self).spec_height(),
            final(self).grid() == step(
                old(self).grid(),
                old(self).spec_width(),
                old(self).spec_height(),
            ),
    {
        let next = next_generation(&self.cells, self.width, self.height);
        self.cells = next;
    }

    /// `steps` generations, applied one after the other; zero steps leaves
    /// the universe unchanged.
    pub fn tick_many(&mut self, steps: u32)
        requires
            old(self).wf(),
        ensures
            final(self).wf(),
            final(self).spec_width() == old(self).spec_width(),
            final(self).spec_height() == old(self).spec_height(),
            final(self).grid() == advance(
                old(self).grid(),
                old(self).spec_width(),
                old(self).spec_height(),
                steps as nat,
            ),
    {
        let ghost start = *self;
        let mut done: u32 = 0;
        while done < steps
            invariant
                done <= steps,
                self.wf(),
                self.spec_width() == start.spec_width(),
                self.spec_height() == start.spec_height(),
                self.grid() == advance(
                    start.grid(),
                    start.spec_width(),
                    start.spec_height(),
                    done as nat,
                ),
            decreases steps - done,
        {
            self.tick();
            done += 1;
        }
    }
}

} // verus!

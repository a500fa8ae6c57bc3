use vstd::prelude::*;
use vstd::arithmetic::mul::lemma_mul_is_commutative;
use crate::cell::Cell;
use crate::coords::{coords_contain, distinct_coords, lemma_push_contains};
use crate::grid::{
    advance, cell_at, flat_index, grid_index, in_bounds, lemma_flat_index_bounds,
    lemma_flat_index_injective, next_generation, seeded, seeded_cells, step, valid_dims,
};

verus! {

/// The cell at p differs between the two buffers.
pub open spec fn flipped_at(before: Seq<Cell>, after: Seq<Cell>, width: int, p: (u32, u32)) -> bool {
    cell_at(before, width, p.0 as int, p.1 as int) != cell_at(after, width, p.0 as int, p.1 as int)
}

/// The in-bounds cell at p flips during generation step `k` of a run that
/// starts from `start`: it differs between the k-th and (k+1)-th generation.
pub open spec fn flipped_in_step(
    start: Seq<Cell>,
    width: int,
    height: int,
    k: nat,
    p: (u32, u32),
) -> bool {
    in_bounds(width, height, p.0 as int, p.1 as int) && flipped_at(
        advance(start, width, height, k),
        advance(start, width, height, k + 1),
        width,
        p,
    )
}

/// The cell at p flips during at least one of the first `steps` generation
/// steps of a run that starts from `start`.
pub open spec fn touched_within(
    start: Seq<Cell>,
    width: int,
    height: int,
    steps: nat,
    p: (u32, u32),
) -> bool
    decreases steps,
{
    steps > 0 && (touched_within(start, width, height, (steps - 1) as nat, p) || flipped_in_step(
        start,
        width,
        height,
        (steps - 1) as nat,
        p,
    ))
}

/// The simulation grid for callers that want to hear, tick by tick, which
/// coordinates flipped.
pub struct ChangeListUniverse {
    width: u32,
    height: u32,
    cells: Vec<Cell>,
}

impl ChangeListUniverse {
    /// Grid width, as a mathematical integer.
    pub closed spec fn spec_width(&self) -> int {
        self.width as int
    }

    /// Grid height, as a mathematical integer.
    pub closed spec fn spec_height(&self) -> int {
        self.height as int
    }

    /// The cell buffer, in row-major order.
    pub closed spec fn grid(&self) -> Seq<Cell> {
        self.cells@
    }

    /// Structural invariant: positive dimensions whose product fits in u32
    /// and a buffer of exactly width * height cells.
    pub open spec fn wf(&self) -> bool {
        &&& valid_dims(self.spec_width(), self.spec_height())
        &&& self.grid().len() == self.spec_width() * self.spec_height()
    }

    /// A fresh square universe of `size` x `size` cells, deterministically
    /// seeded: the cell at flat index i starts Alive exactly when i is even
    /// or divisible by 7.
    pub fn new(size: u32) -> (universe: ChangeListUniverse)
        requires
            1 <= size,
            size as int * size as int <= u32::MAX,
        ensures
            universe.wf(),
            universe.spec_width() == size,
            universe.spec_height() == size,
            universe.grid() == seeded(size as int * size as int),
    {
        let len = (size as u64 * size as u64) as u32;
        let cells = seeded_cells(len);
        ChangeListUniverse { width: size, height: size, cells }
    }

    /// The width of the grid in cells.
    pub fn width(&self) -> (w: u32)
        ensures
            w as int == self.spec_width(),
    {
        self.width
    }

    /// The height of the grid in cells.
    pub fn height(&self) -> (h: u32)
        ensures
            h as int == self.spec_height(),
    {
        self.height
    }

    /// Row-major flat index of (row, column); coordinates must be in bounds.
    pub fn get_index(&self, row: u32, column: u32) -> (i: usize)
        requires
            self.wf(),
            in_bounds(self.spec_width(), self.spec_height(), row as int, column as int),
        ensures
            i == flat_index(self.spec_width(), row as int, column as int),
            i < self.grid().len(),
    {
        grid_index(self.width, self.height, row, column)
    }

    /// The cell at a flat index.
    pub fn cell(&self, i: usize) -> (cell: Cell)
        requires
            i < self.grid().len(),
        ensures
            cell == self.grid()[i as int],
    {
        self.cells[i]
    }

    /// Flips exactly the cell at (row, column), leaving every other cell and
    /// both dimensions untouched. Not reported by any change list.
    pub fn toggle_cell(&mut self, row: u32, column: u32)
        requires
            old(self).wf(),
            in_bounds(old(self).spec_width(), old(self).spec_height(), row as int, column as int),
        ensures
            final(self).wf(),
            final(self).spec_width() == old(self).spec_width(),
            final(self).spec_height() == old(self).spec_height(),
            final(self).grid() == old(self).grid().update(
                flat_index(old(self).spec_width(), row as int, column as int),
                old(self).grid()[flat_index(old(self).spec_width(), row as int, column as int)].flipped(),
            ),
    {
        let i = grid_index(self.width, self.height, row, column);
        self.cells[i].toggle();
    }

    /// One synchronous generation. Returns exactly the coordinates whose
    /// cell differs between the old and the new buffer, in row-major scan
    /// order, and no others.
    pub fn tick(&mut self) -> (changes: Vec<(u32, u32)>)
        requires
            old(self).wf(),
        ensures
            final(self).wf(),
            final(self).spec_width() == old(self).spec_width(),
            final(self).spec_height() == old(self).spec_height(),
            final(self).grid() == step(
                old(self).grid(),
                old(self).spec_width(),
                old(self).spec_height(),
            ),
            forall|p: (u32, u32)| #[trigger] changes@.contains(p) <==> (in_bounds(
                old(self).spec_width(),
                old(self).spec_height(),
                p.0 as int,
                p.1 as int,
            ) && flipped_at(old(self).grid(), final(self).grid(), old(self).spec_width(), p)),
            forall|k1: int, k2: int|
                0 <= k1 < k2 < changes@.len() ==> flat_index(
                    old(self).spec_width(),
                    (#[trigger] changes@[k1]).0 as int,
                    changes@[k1].1 as int,
                ) < flat_index(
                    old(self).spec_width(),
                    (#[trigger] changes@[k2]).0 as int,
                    changes@[k2].1 as int,
                ),
    {
        let ghost w = self.width as int;
        let ghost h = self.height as int;
        let ghost before = self.cells@;
        let width = self.width;
        let height = self.height;
        let next = next_generation(&self.cells, width, height);
        let ghost after = next@;
        let mut changes: Vec<(u32, u32)> = Vec::new();
        let mut row: u32 = 0;
        while row < height
            invariant
                valid_dims(w, h),
                w == width as int,
                h == height as int,
                self.cells@ == before,
                before.len() == w * h,
                after == next@,
                after.len() == w * h,
                row <= height,
                forall|k: int|
                    0 <= k < changes@.len() ==> in_bounds(
                        w,
                        h,
                        (#[trigger] changes@[k]).0 as int,
                        changes@[k].1 as int,
                    ) && flat_index(w, changes@[k].0 as int, changes@[k].1 as int) < flat_index(
                        w,
                        row as int,
                        0,
                    ) && flipped_at(before, after, w, changes@[k]),
                forall|k1: int, k2: int|
                    0 <= k1 < k2 < changes@.len() ==> flat_index(
                        w,
                        (#[trigger] changes@[k1]).0 as int,
                        changes@[k1].1 as int,
                    ) < flat_index(w, (#[trigger] changes@[k2]).0 as int, changes@[k2].1 as int),
                forall|r: int, c: int|
                    in_bounds(w, h, r, c) && #[trigger] flat_index(w, r, c) < flat_index(
                        w,
                        row as int,
                        0,
                    ) && flipped_at(before, after, w, (r as u32, c as u32)) ==> changes@.contains(
                        (r as u32, c as u32),
                    ),
            decreases height - row,
        {
            let mut column: u32 = 0;
            while column < width
                invariant
                    valid_dims(w, h),
                    w == width as int,
                    h == height as int,
                    self.cells@ == before,
                    before.len() == w * h,
                    after == next@,
                    after.len() == w * h,
                    row < height,
                    column <= width,
                    forall|k: int|
                        0 <= k < changes@.len() ==> in_bounds(
                            w,
                            h,
                            (#[trigger] changes@[k]).0 as int,
                            changes@[k].1 as int,
                        ) && flat_index(w, changes@[k].0 as int, changes@[k].1 as int) < flat_index(
                            w,
                            row as int,
                            column as int,
                        ) && flipped_at(before, after, w, changes@[k]),
                    forall|k1: int, k2: int|
                        0 <= k1 < k2 < changes@.len() ==> flat_index(
                            w,
                            (#[trigger] changes@[k1]).0 as int,
                            changes@[k1].1 as int,
                        ) < flat_index(w, (#[trigger] changes@[k2]).0 as int, changes@[k2].1 as int),
                    forall|r: int, c: int|
                        in_bounds(w, h, r, c) && #[trigger] flat_index(w, r, c) < flat_index(
                            w,
                            row as int,
                            column as int,
                        ) && flipped_at(before, after, w, (r as u32, c as u32))
                            ==> changes@.contains((r as u32, c as u32)),
                decreases width - column,
            {
                let i = grid_index(width, height, row, column);
                proof {
                    lemma_push_contains(changes@, (row, column));
                    assert forall|r: int, c: int|
                        in_bounds(w, h, r, c) && #[trigger] flat_index(w, r, c) == flat_index(
                            w,
                            row as int,
                            column as int,
                        ) implies r == row as int && c == column as int by {
                        lemma_flat_index_injective(w, h, r, c, row as int, column as int);
                    }
                }
                if self.cells[i] != next[i] {
                    changes.push((row, column));
                }
                column += 1;
            }
            proof {
                assert((row as int + 1) * w == row as int * w + w) by (nonlinear_arith);
            }
            row += 1;
        }
        self.cells = next;
        proof {
            lemma_mul_is_commutative(w, h);
            assert forall|p: (u32, u32)| #[trigger] changes@.contains(p) implies (in_bounds(
                w,
                h,
                p.0 as int,
                p.1 as int,
            ) && flipped_at(before, after, w, p)) by {
                let k = choose|k: int| 0 <= k < changes@.len() && changes@[k] == p;
                assert(changes@[k] == p);
            }
            assert forall|p: (u32, u32)| (in_bounds(w, h, p.0 as int, p.1 as int) && flipped_at(
                before,
                after,
                w,
                p,
            )) implies #[trigger] changes@.contains(p) by {
                lemma_flat_index_bounds(w, h, p.0 as int, p.1 as int);
            }
        }
        changes
    }

    /// `steps` generations, applied one after the other; zero steps is a
    /// no-op. Returns, without duplicates, exactly the coordinates that
    /// flipped during at least one of the steps; a coordinate that flips and
    /// later flips back still appears, and appears once.
    pub fn tick_many(&mut self, steps: u32) -> (touched: Vec<(u32, u32)>)
        requires
            old(self).wf(),
        ensures
            final(self).wf(),
            final(self).spec_width() == old(self).spec_width(),
            final(self).spec_height() == old(self).spec_height(),
            final(self).grid() == advance(
                old(self).grid(),
                old(self).spec_width(),
                old(self).spec_height(),
                steps as nat,
            ),
            distinct_coords(touched@),
            forall|p: (u32, u32)| #[trigger] touched@.contains(p) <==> touched_within(
                old(self).grid(),
                old(self).spec_width(),
                old(self).spec_height(),
                steps as nat,
                p,
            ),
    {
        let ghost start = self.cells@;
        let ghost w = self.width as int;
        let ghost h = self.height as int;
        let mut touched: Vec<(u32, u32)> = Vec::new();
        let mut done: u32 = 0;
        while done < steps
            invariant
                self.wf(),
                self.spec_width() == w,
                self.spec_height() == h,
                done <= steps,
                self.grid() == advance(start, w, h, done as nat),
                distinct_coords(touched@),
                forall|p: (u32, u32)| #[trigger] touched@.contains(p) <==> touched_within(
                    start,
                    w,
                    h,
                    done as nat,
                    p,
                ),
            decreases steps - done,
        {
            let changes = self.tick();
            let mut j: usize = 0;
            while j < changes.len()
                invariant
                    j <= changes@.len(),
                    distinct_coords(touched@),
                    forall|p: (u32, u32)| #[trigger] touched@.contains(p) <==> (touched_within(
                        start,
                        w,
                        h,
                        done as nat,
                        p,
                    ) || changes@.subrange(0, j as int).contains(p)),
                decreases changes@.len() - j,
            {
                let p = changes[j];
                proof {
                    assert(changes@.subrange(0, j as int + 1) =~= changes@.subrange(
                        0,
                        j as int,
                    ).push(changes@[j as int]));
                    lemma_push_contains(changes@.subrange(0, j as int), changes@[j as int]);
                    lemma_push_contains(touched@, p);
                }
                if !coords_contain(&touched, p) {
                    touched.push(p);
                }
                j += 1;
            }
            proof {
                assert(changes@.subrange(0, changes@.len() as int) =~= changes@);
                assert(advance(start, w, h, done as nat + 1) == step(
                    advance(start, w, h, done as nat),
                    w,
                    h,
                ));
            }
            done += 1;
        }
        touched
    }
}

} // verus!

use vstd::prelude::*;
use vstd::arithmetic::mul::lemma_mul_is_commutative;
use crate::cell::Cell;
use crate::coords::{alive_coords, coords_contain, distinct_coords, lemma_push_contains};
use crate::grid::{
    advance, cell_at, flat_index, grid_index, in_bounds, lemma_flat_index_bounds,
    lemma_flat_index_injective, next_generation, seeded, seeded_cells, step, valid_dims,
};

verus! {

/// After one tick took `before` to `after`, a coordinate is tracked exactly
/// when its cell flipped and is now Alive, or it did not flip and was tracked
/// before. This is the incremental insert-on-birth / remove-on-death rule: a
/// cell whose state did not change keeps whatever tracking it had, right or
/// stale.
pub open spec fn tracked_after_tick(
    before: Seq<Cell>,
    after: Seq<Cell>,
    width: int,
    noted: Seq<(u32, u32)>,
    p: (u32, u32),
) -> bool {
    if cell_at(before, width, p.0 as int, p.1 as int) != cell_at(after, width, p.0 as int, p.1 as int) {
        cell_at(after, width, p.0 as int, p.1 as int) is Alive
    } else {
        noted.contains(p)
    }
}

/// The alive-list membership after `steps` ticks of a run that starts from
/// buffer `start` with tracking `noted`: each tick applies the rule of
/// `tracked_after_tick` to the previous tick's tracking, so a coordinate
/// that flips on the last step it changed is tracked exactly when it ended
/// Alive, and one that never changed keeps its starting tracking. Zero
/// steps is the starting tracking itself.
pub open spec fn tracked_after_ticks(
    start: Seq<Cell>,
    width: int,
    height: int,
    noted: Seq<(u32, u32)>,
    steps: nat,
    p: (u32, u32),
) -> bool
    decreases steps,
{
    if steps == 0 {
        noted.contains(p)
    } else if cell_at(
        advance(start, width, height, (steps - 1) as nat),
        width,
        p.0 as int,
        p.1 as int,
    ) != cell_at(advance(start, width, height, steps), width, p.0 as int, p.1 as int) {
        cell_at(advance(start, width, height, steps), width, p.0 as int, p.1 as int) is Alive
    } else {
        tracked_after_ticks(start, width, height, noted, (steps - 1) as nat, p)
    }
}

/// The simulation grid, together with an incrementally maintained list of
/// the coordinates whose cell is currently Alive.
pub struct Universe {
    width: u32,
    height: u32,
    cells: Vec<Cell>,
    alive: Vec<(u32, u32)>,
}

impl Universe {
    /// Grid width, as a mathematical integer.
    pub closed spec fn spec_width(&self) -> int {
        self.width as int
    }

    /// Grid height, as a mathematical integer.
    pub closed spec fn spec_height(&self) -> int {
        self.height as int
    }

    /// The cell buffer, in row-major order.
    pub closed spec fn grid(&self) -> Seq<Cell> {
        self.cells@
    }

    /// The tracked alive coordinates, as (row, column) pairs.
    pub closed spec fn alive_list(&self) -> Seq<(u32, u32)> {
        self.alive@
    }

    /// Structural invariant: positive dimensions whose product fits in u32,
    /// a buffer of exactly width * height cells, and a duplicate-free alive
    /// list of in-bounds coordinates.
    pub open spec fn wf(&self) -> bool {
        &&& valid_dims(self.spec_width(), self.spec_height())
        &&& self.grid().len() == self.spec_width() * self.spec_height()
        &&& distinct_coords(self.alive_list())
        &&& forall|k: int|
            0 <= k < self.alive_list().len() ==> in_bounds(
                self.spec_width(),
                self.spec_height(),
                (#[trigger] self.alive_list()[k]).0 as int,
                self.alive_list()[k].1 as int,
            )
    }

    /// The alive list is exactly the set of coordinates whose cell is Alive:
    /// every tracked coordinate holds an Alive cell, and every Alive cell's
    /// coordinate is tracked.
    pub open spec fn alive_in_sync(&self) -> bool {
        &&& forall|k: int|
            0 <= k < self.alive_list().len() ==> cell_at(
                self.grid(),
                self.spec_width(),
                (#[trigger] self.alive_list()[k]).0 as int,
                self.alive_list()[k].1 as int,
            ) is Alive
        &&& forall|r: int, c: int|
            in_bounds(self.spec_width(), self.spec_height(), r, c) && #[trigger] cell_at(
                self.grid(),
                self.spec_width(),
                r,
                c,
            ) is Alive ==> self.alive_list().contains((r as u32, c as u32))
    }

    /// A fresh square universe of `size` x `size` cells, deterministically
    /// seeded: the cell at flat index i starts Alive exactly when i is even
    /// or divisible by 7. The alive list starts in sync with the buffer.
    pub fn new(size: u32) -> (universe: Universe)
        requires
            1 <= size,
            size as int * size as int <= u32::MAX,
        ensures
            universe.wf(),
            universe.alive_in_sync(),
            universe.spec_width() == size,
            universe.spec_height() == size,
            universe.grid() == seeded(size as int * size as int),
    {
        let len = (size as u64 * size as u64) as u32;
        let cells = seeded_cells(len);
        let alive = alive_coords(&cells, size, size);
        let universe = Universe { width: size, height: size, cells, alive };
        proof {
            assert(universe.grid().len() == size as int * size as int);
            assert forall|k: int| 0 <= k < universe.alive_list().len() implies in_bounds(
                universe.spec_width(),
                universe.spec_height(),
                (#[trigger] universe.alive_list()[k]).0 as int,
                universe.alive_list()[k].1 as int,
            ) && cell_at(
                universe.grid(),
                universe.spec_width(),
                universe.alive_list()[k].0 as int,
                universe.alive_list()[k].1 as int,
            ) is Alive by {
                assert(universe.alive_list().contains(universe.alive_list()[k]));
            }
        }
        universe
    }

    /// The width of the grid in cells.
    pub fn width(&self) -> (w: u32)
        ensures
            w as int == self.spec_width(),
    {
        self.width
    }

    /// The height of the grid in cells.
    pub fn height(&self) -> (h: u32)
        ensures
            h as int == self.spec_height(),
    {
        self.height
    }

    /// Row-major flat index of (row, column); coordinates must be in bounds.
    pub fn get_index(&self, row: u32, column: u32) -> (i: usize)
        requires
            self.wf(),
            in_bounds(self.spec_width(), self.spec_height(), row as int, column as int),
        ensures
            i == flat_index(self.spec_width(), row as int, column as int),
            i < self.grid().len(),
    {
        grid_index(self.width, self.height, row, column)
    }

    /// The cell at a flat index.
    pub fn cell(&self, i: usize) -> (cell: Cell)
        requires
            i < self.grid().len(),
        ensures
            cell == self.grid()[i as int],
    {
        self.cells[i]
    }

    /// The tracked alive coordinates, read-only. In-sync universes expose
    /// exactly the Alive coordinates here; `toggle_cell` is not tracked, so
    /// a toggle desynchronizes this list until it is rebuilt by a tick that
    /// flips the toggled cell.
    pub fn alive_cells(&self) -> (list: &Vec<(u32, u32)>)
        ensures
            list@ == self.alive_list(),
    {
        &self.alive
    }

    /// Flips exactly the cell at (row, column), leaving every other cell,
    /// both dimensions and the alive list untouched.
    pub fn toggle_cell(&mut self, row: u32, column: u32)
        requires
            old(self).wf(),
            in_bounds(old(self).spec_width(), old(self).spec_height(), row as int, column as int),
        ensures
            final(self).wf(),
            final(self).spec_width() == old(self).spec_width(),
            final(self).spec_height() == old(self).spec_height(),
            final(self).grid() == old(self).grid().update(
                flat_index(old(self).spec_width(), row as int, column as int),
                old(self).grid()[flat_index(old(self).spec_width(), row as int, column as int)].flipped(),
            ),
            final(self).alive_list() == old(self).alive_list(),
    {
        let i = grid_index(self.width, self.height, row, column);
        self.cells[i].toggle();
    }

    /// One synchronous generation. The whole next buffer is computed from
    /// the old one before it replaces it, and the alive list is updated by
    /// the flips: a flipped cell is tracked exactly when now Alive, and an
    /// unchanged cell keeps its old tracking. In particular an in-sync alive
    /// list stays in sync.
    pub fn tick(&mut self)
        requires
            old(self).wf(),
        ensures
            final(self).wf(),
            final(self).spec_width() == old(self).spec_width(),
            final(self).spec_height() == old(self).spec_height(),
            final(self).grid() == step(
                old(self).grid(),
                old(self).spec_width(),
                old(self).spec_height(),
            ),
            forall|p: (u32, u32)| #[trigger] final(self).alive_list().contains(p) <==> (in_bounds(
                old(self).spec_width(),
                old(self).spec_height(),
                p.0 as int,
                p.1 as int,
            ) && tracked_after_tick(
                old(self).grid(),
                final(self).grid(),
                old(self).spec_width(),
                old(self).alive_list(),
                p,
            )),
            old(self).alive_in_sync() ==> final(self).alive_in_sync(),
    {
        let ghost w = self.width as int;
        let ghost h = self.height as int;
        let ghost before = self.cells@;
        let ghost olda = self.alive@;
        let width = self.width;
        let height = self.height;
        let next = next_generation(&self.cells, width, height);
        let ghost after = next@;
        let mut fresh: Vec<(u32, u32)> = Vec::new();
        let mut row: u32 = 0;
        while row < height
            invariant
                valid_dims(w, h),
                w == width as int,
                h == height as int,
                self.cells@ == before,
                self.alive@ == olda,
                before.len() == w * h,
                after == next@,
                after.len() == w * h,
                row <= height,
                distinct_coords(fresh@),
                forall|k: int|
                    0 <= k < fresh@.len() ==> in_bounds(
                        w,
                        h,
                        (#[trigger] fresh@[k]).0 as int,
                        fresh@[k].1 as int,
                    ) && flat_index(w, fresh@[k].0 as int, fresh@[k].1 as int) < flat_index(
                        w,
                        row as int,
                        0,
                    ) && tracked_after_tick(before, after, w, olda, fresh@[k]),
                forall|r: int, c: int|
                    in_bounds(w, h, r, c) && #[trigger] flat_index(w, r, c) < flat_index(
                        w,
                        row as int,
                        0,
                    ) && tracked_after_tick(before, after, w, olda, (r as u32, c as u32))
                        ==> fresh@.contains((r as u32, c as u32)),
            decreases height - row,
        {
            let mut column: u32 = 0;
            while column < width
                invariant
                    valid_dims(w, h),
                    w == width as int,
                    h == height as int,
                    self.cells@ == before,
                    self.alive@ == olda,
                    before.len() == w * h,
                    after == next@,
                    after.len() == w * h,
                    row < height,
                    column <= width,
                    distinct_coords(fresh@),
                    forall|k: int|
                        0 <= k < fresh@.len() ==> in_bounds(
                            w,
                            h,
                            (#[trigger] fresh@[k]).0 as int,
                            fresh@[k].1 as int,
                        ) && flat_index(w, fresh@[k].0 as int, fresh@[k].1 as int) < flat_index(
                            w,
                            row as int,
                            column as int,
                        ) && tracked_after_tick(before, after, w, olda, fresh@[k]),
                    forall|r: int, c: int|
                        in_bounds(w, h, r, c) && #[trigger] flat_index(w, r, c) < flat_index(
                            w,
                            row as int,
                            column as int,
                        ) && tracked_after_tick(before, after, w, olda, (r as u32, c as u32))
                            ==> fresh@.contains((r as u32, c as u32)),
                decreases width - column,
            {
                let i = grid_index(width, height, row, column);
                let was = self.cells[i];
                let now = next[i];
                let tracked_here = if was != now {
                    now.is_alive()
                } else {
                    coords_contain(&self.alive, (row, column))
                };
                proof {
                    lemma_push_contains(fresh@, (row, column));
                    assert forall|r: int, c: int|
                        in_bounds(w, h, r, c) && #[trigger] flat_index(w, r, c) == flat_index(
                            w,
                            row as int,
                            column as int,
                        ) implies r == row as int && c == column as int by {
                        lemma_flat_index_injective(w, h, r, c, row as int, column as int);
                    }
                }
                if tracked_here {
                    fresh.push((row, column));
                }
                column += 1;
            }
            proof {
                assert((row as int + 1) * w == row as int * w + w) by (nonlinear_arith);
            }
            row += 1;
        }
        self.cells = next;
        self.alive = fresh;
        proof {
            lemma_mul_is_commutative(w, h);
            assert forall|p: (u32, u32)| #[trigger] self.alive_list().contains(p) implies (
            in_bounds(w, h, p.0 as int, p.1 as int) && tracked_after_tick(
                before,
                after,
                w,
                olda,
                p,
            )) by {
                let k = choose|k: int| 0 <= k < self.alive@.len() && self.alive@[k] == p;
                assert(self.alive@[k] == p);
            }
            assert forall|p: (u32, u32)| (in_bounds(w, h, p.0 as int, p.1 as int)
                && tracked_after_tick(before, after, w, olda, p)) implies #[trigger] self
                .alive_list().contains(p) by {
                lemma_flat_index_bounds(w, h, p.0 as int, p.1 as int);
            }
            if old(self).alive_in_sync() {
                assert forall|k: int| 0 <= k < self.alive_list().len() implies cell_at(
                    self.grid(),
                    w,
                    (#[trigger] self.alive_list()[k]).0 as int,
                    self.alive_list()[k].1 as int,
                ) is Alive by {
                    let p = self.alive_list()[k];
                    assert(self.alive_list().contains(p));
                }
                assert forall|r: int, c: int|
                    in_bounds(w, h, r, c) && #[trigger] cell_at(self.grid(), w, r, c) is Alive
                    implies self.alive_list().contains((r as u32, c as u32)) by {
                    lemma_flat_index_bounds(w, h, r, c);
                    let p = (r as u32, c as u32);
                    if cell_at(before, w, r, c) == cell_at(after, w, r, c) {
                        assert(olda.contains(p));
                    }
                }
            }
        }
    }

    /// `steps` generations, applied one after the other, each updating the
    /// alive list by `tick`'s tracking rule; zero steps leaves the universe
    /// unchanged, alive list included. An in-sync alive list stays in sync.
    pub fn tick_many(&mut self, steps: u32)
        requires
            old(self).wf(),
        ensures
            final(self).wf(),
            final(self).spec_width() == old(self).spec_width(),
            final(self).spec_height() == old(self).spec_height(),
            final(self).grid() == advance(
                old(self).grid(),
                old(self).spec_width(),
                old(self).spec_height(),
                steps as nat,
            ),
            steps == 0 ==> *final(self) == *old(self),
            forall|p: (u32, u32)| #[trigger] final(self).alive_list().contains(p) <==> (in_bounds(
                old(self).spec_width(),
                old(self).spec_height(),
                p.0 as int,
                p.1 as int,
            ) && tracked_after_ticks(
                old(self).grid(),
                old(self).spec_width(),
                old(self).spec_height(),
                old(self).alive_list(),
                steps as nat,
                p,
            )),
            old(self).alive_in_sync() ==> final(self).alive_in_sync(),
    {
        let ghost g0 = self.cells@;
        let ghost a0 = self.alive@;
        let ghost w = self.width as int;
        let ghost h = self.height as int;
        let ghost start = *self;
        proof {
            assert forall|p: (u32, u32)| #[trigger] self.alive_list().contains(p) implies
                in_bounds(w, h, p.0 as int, p.1 as int) by {
                let k = choose|k: int| 0 <= k < self.alive@.len() && self.alive@[k] == p;
                assert(self.alive@[k] == p);
            }
        }
        let mut done: u32 = 0;
        while done < steps
            invariant
                done <= steps,
                self.wf(),
                self.spec_width() == w,
                self.spec_height() == h,
                self.grid() == advance(g0, w, h, done as nat),
                done == 0 ==> *self == start,
                forall|p: (u32, u32)| #[trigger] self.alive_list().contains(p) <==> (in_bounds(
                    w,
                    h,
                    p.0 as int,
                    p.1 as int,
                ) && tracked_after_ticks(g0, w, h, a0, done as nat, p)),
                start.alive_in_sync() ==> self.alive_in_sync(),
            decreases steps - done,
        {
            let ghost prev = *self;
            self.tick();
            proof {
                assert(advance(g0, w, h, done as nat + 1) == step(advance(g0, w, h, done as nat), w, h));
                assert forall|p: (u32, u32)| #[trigger] self.alive_list().contains(p) <==> (
                in_bounds(w, h, p.0 as int, p.1 as int) && tracked_after_ticks(
                    g0,
                    w,
                    h,
                    a0,
                    done as nat + 1,
                    p,
                )) by {
                    assert(prev.alive_list().contains(p) <==> (in_bounds(
                        w,
                        h,
                        p.0 as int,
                        p.1 as int,
                    ) && tracked_after_ticks(g0, w, h, a0, done as nat, p)));
                }
            }
            done += 1;
        }
    }
}

impl Default for Universe {
    /// The default universe: 64 x 64, freshly seeded.
    fn default() -> (universe: Universe)
        ensures
            universe.wf(),
            universe.alive_in_sync(),
            universe.spec_width() == 64,
            universe.spec_height() == 64,
            universe.grid() == seeded(4096int),
    {
        Universe::new(64)
    }
}

} // verus!

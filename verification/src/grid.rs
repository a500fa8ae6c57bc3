use vstd::prelude::*;
use vstd::arithmetic::div_mod::{
    lemma_fundamental_div_mod, lemma_fundamental_div_mod_converse_div,
    lemma_fundamental_div_mod_converse_mod, lemma_div_pos_is_pos,
    lemma_mod_add_multiples_vanish, lemma_mod_division_less_than_divisor, lemma_mod_self_0,
    lemma_small_mod,
};
use vstd::arithmetic::mul::{lemma_mul_inequality, lemma_mul_is_commutative};
use crate::cell::Cell;

verus! {

/// Row-major flat index of the cell at (row, column) on a grid `width` cells wide.
pub open spec fn flat_index(width: int, row: int, column: int) -> int {
    row * width + column
}

/// (row, column) lies on a grid of the given dimensions.
pub open spec fn in_bounds(width: int, height: int, row: int, column: int) -> bool {
    0 <= row < height && 0 <= column < width
}

/// Grid dimensions the engines accept: positive, and small enough that every
/// flat index fits in a `u32`.
pub open spec fn valid_dims(width: int, height: int) -> bool {
    &&& 1 <= width
    &&& 1 <= height
    &&& width * height <= u32::MAX
}

/// How much one cell contributes to a live-neighbor count.
pub open spec fn alive_one(cell: Cell) -> int {
    if cell is Alive {
        1
    } else {
        0
    }
}

/// The cell stored at (row, column) of a row-major buffer.
pub open spec fn cell_at(cells: Seq<Cell>, width: int, row: int, column: int) -> Cell {
    cells[flat_index(width, row, column)]
}

/// Number of Alive cells among the 8 toroidal neighbors of (row, column):
/// row and column offsets of -1 and +1 wrap modulo the grid dimensions, so
/// edge cells see the opposite edge as adjacent.
pub open spec fn neighbor_count(
    cells: Seq<Cell>,
    width: int,
    height: int,
    row: int,
    column: int,
) -> int {
    let up = (row + height - 1) % height;
    let down = (row + 1) % height;
    let left = (column + width - 1) % width;
    let right = (column + 1) % width;
    alive_one(cell_at(cells, width, up, left)) + alive_one(cell_at(cells, width, up, column))
        + alive_one(cell_at(cells, width, up, right)) + alive_one(
        cell_at(cells, width, row, left),
    ) + alive_one(cell_at(cells, width, row, right)) + alive_one(
        cell_at(cells, width, down, left),
    ) + alive_one(cell_at(cells, width, down, column)) + alive_one(
        cell_at(cells, width, down, right),
    )
}

/// The Game-of-Life transition table. An Alive cell survives exactly with 2
/// or 3 live neighbors (fewer is underpopulation, more is overpopulation);
/// a Dead cell becomes Alive exactly with 3 live neighbors; everything else
/// keeps its state.
pub open spec fn next_cell(current: Cell, neighbors: int) -> Cell {
    match current {
        Cell::Alive => if neighbors < 2 {
            Cell::Dead
        } else if neighbors <= 3 {
            Cell::Alive
        } else {
            Cell::Dead
        },
        Cell::Dead => if neighbors == 3 {
            Cell::Alive
        } else {
            Cell::Dead
        },
    }
}

/// One synchronous generation: every cell moves to its `next_cell` state,
/// with all neighbor counts taken from the old buffer.
pub open spec fn step(cells: Seq<Cell>, width: int, height: int) -> Seq<Cell> {
    Seq::new(
        cells.len(),
        |i: int| next_cell(cells[i], neighbor_count(cells, width, height, i / width, i % width)),
    )
}

/// `count` generations, applied one after the other.
pub open spec fn advance(cells: Seq<Cell>, width: int, height: int, count: nat) -> Seq<Cell>
    decreases count,
{
    if count == 0 {
        cells
    } else {
        step(advance(cells, width, height, (count - 1) as nat), width, height)
    }
}

/// The fixed seed pattern: the cell at flat index i starts Alive exactly
/// when i is even or divisible by 7.
pub open spec fn seed_cell(i: int) -> Cell {
    if i % 2 == 0 || i % 7 == 0 {
        Cell::Alive
    } else {
        Cell::Dead
    }
}

/// A freshly seeded buffer of the given length.
pub open spec fn seeded(len: int) -> Seq<Cell> {
    Seq::new(len as nat, |i: int| seed_cell(i))
}

/// An all-Dead buffer of the given length.
pub open spec fn dead(len: int) -> Seq<Cell> {
    Seq::new(len as nat, |i: int| Cell::Dead)
}

/// A fresh all-Dead buffer of `len` cells, matching `dead`.
pub fn dead_cells(len: u32) -> (cells: Vec<Cell>)
    ensures
        cells@ == dead(len as int),
{
    let mut cells: Vec<Cell> = Vec::new();
    let mut i: u32 = 0;
    while i < len
        invariant
            i <= len,
            cells@.len() == i as int,
            forall|j: int| 0 <= j < i as int ==> cells@[j] == Cell::Dead,
        decreases len - i,
    {
        cells.push(Cell::Dead);
        i += 1;
    }
    proof {
        assert(cells@ =~= dead(len as int));
    }
    cells
}

/// Within a row, flat indices stay below the next row's first index.
pub proof fn lemma_flat_index_bounds(width: int, height: int, row: int, column: int)
    by (nonlinear_arith)
    requires
        1 <= width,
        1 <= height,
        in_bounds(width, height, row, column),
    ensures
        0 <= flat_index(width, row, column) < width * height,
{
}

/// Stepping one back with wraparound: the previous slot, or the last slot
/// from the first.
pub proof fn lemma_wrap_dec(a: int, m: int)
    requires
        0 <= a < m,
    ensures
        (a + m - 1) % m == if a == 0 {
            m - 1
        } else {
            a - 1
        },
{
    if a == 0 {
        lemma_small_mod((m - 1) as nat, m as nat);
    } else {
        lemma_mod_add_multiples_vanish(a - 1, m);
        lemma_small_mod((a - 1) as nat, m as nat);
    }
}

/// Stepping one forward with wraparound: the next slot, or the first slot
/// from the last.
pub proof fn lemma_wrap_inc(a: int, m: int)
    requires
        0 <= a < m,
    ensures
        (a + 1) % m == if a == m - 1 {
            0
        } else {
            a + 1
        },
{
    if a == m - 1 {
        lemma_mod_self_0(m);
    } else {
        lemma_small_mod((a + 1) as nat, m as nat);
    }
}

/// Every flat index of the grid splits into an in-bounds row and column.
pub proof fn lemma_flat_split(width: int, height: int, i: int)
    requires
        1 <= width,
        1 <= height,
        0 <= i < width * height,
    ensures
        in_bounds(width, height, i / width, i % width),
        i == flat_index(width, i / width, i % width),
{
    lemma_fundamental_div_mod(i, width);
    lemma_mod_division_less_than_divisor(i, width);
    lemma_div_pos_is_pos(i, width);
    if i / width >= height {
        lemma_mul_is_commutative(width, i / width);
        lemma_mul_is_commutative(width, height);
        lemma_mul_inequality(height, i / width, width);
    }
    lemma_mul_is_commutative(width, i / width);
}

/// A flat index decomposes back into the row and column it was built from.
pub proof fn lemma_flat_index_coords(width: int, row: int, column: int)
    requires
        1 <= width,
        0 <= row,
        0 <= column < width,
    ensures
        flat_index(width, row, column) / width == row,
        flat_index(width, row, column) % width == column,
{
    lemma_fundamental_div_mod_converse_div(row * width + column, width, row, column);
    lemma_fundamental_div_mod_converse_mod(row * width + column, width, row, column);
}

/// Distinct in-bounds coordinates have distinct flat indices.
pub proof fn lemma_flat_index_injective(
    width: int,
    height: int,
    r1: int,
    c1: int,
    r2: int,
    c2: int,
)
    requires
        1 <= width,
        1 <= height,
        in_bounds(width, height, r1, c1),
        in_bounds(width, height, r2, c2),
        flat_index(width, r1, c1) == flat_index(width, r2, c2),
    ensures
        r1 == r2 && c1 == c2,
{
    lemma_flat_index_coords(width, r1, c1);
    lemma_flat_index_coords(width, r2, c2);
}

/// Row-major flat index of (row, column), as a `Vec` position.
pub fn grid_index(width: u32, height: u32, row: u32, column: u32) -> (i: usize)
    requires
        valid_dims(width as int, height as int),
        row < height,
        column < width,
    ensures
        i == flat_index(width as int, row as int, column as int),
        i < width as int * height as int,
{
    proof {
        lemma_flat_index_bounds(width as int, height as int, row as int, column as int);
    }
    (row as u64 * width as u64 + column as u64) as usize
}

/// Number of Alive cells among the 8 toroidal neighbors of (row, column).
pub fn live_neighbor_count(cells: &Vec<Cell>, width: u32, height: u32, row: u32, column: u32) -> (count:
    u8)
    requires
        valid_dims(width as int, height as int),
        cells@.len() == width as int * height as int,
        row < height,
        column < width,
    ensures
        count as int == neighbor_count(cells@, width as int, height as int, row as int, column as int),
{
    let w = width as u64;
    let h = height as u64;
    let up = ((row as u64 + h - 1) % h) as u32;
    let down = ((row as u64 + 1) % h) as u32;
    let left = ((column as u64 + w - 1) % w) as u32;
    let right = ((column as u64 + 1) % w) as u32;
    let mut count: u8 = 0;
    if cells[grid_index(width, height, up, left)].is_alive() {
        count += 1;
    }
    if cells[grid_index(width, height, up, column)].is_alive() {
        count += 1;
    }
    if cells[grid_index(width, height, up, right)].is_alive() {
        count += 1;
    }
    if cells[grid_index(width, height, row, left)].is_alive() {
        count += 1;
    }
    if cells[grid_index(width, height, row, right)].is_alive() {
        count += 1;
    }
    if cells[grid_index(width, height, down, left)].is_alive() {
        count += 1;
    }
    if cells[grid_index(width, height, down, column)].is_alive() {
        count += 1;
    }
    if cells[grid_index(width, height, down, right)].is_alive() {
        count += 1;
    }
    count
}

/// The transition table of `next_cell`, executably.
pub fn next_cell_value(current: Cell, neighbors: u8) -> (next: Cell)
    ensures
        next == next_cell(current, neighbors as int),
{
    match current {
        Cell::Alive => if neighbors < 2 {
            Cell::Dead
        } else if neighbors <= 3 {
            Cell::Alive
        } else {
            Cell::Dead
        },
        Cell::Dead => if neighbors == 3 {
            Cell::Alive
        } else {
            Cell::Dead
        },
    }
}

/// Computes one whole generation into a fresh buffer, leaving the old one
/// untouched while neighbor counting is in progress.
pub fn next_generation(cells: &Vec<Cell>, width: u32, height: u32) -> (next: Vec<Cell>)
    requires
        valid_dims(width as int, height as int),
        cells@.len() == width as int * height as int,
    ensures
        next@ == step(cells@, width as int, height as int),
{
    let ghost stepped = step(cells@, width as int, height as int);
    let mut next: Vec<Cell> = Vec::new();
    let mut row: u32 = 0;
    while row < height
        invariant
            valid_dims(width as int, height as int),
            cells@.len() == width as int * height as int,
            stepped == step(cells@, width as int, height as int),
            row <= height,
            next@.len() == width as int * row as int,
            forall|i: int| 0 <= i < next@.len() ==> #[trigger] next@[i] == stepped[i],
        decreases height - row,
    {
        let mut column: u32 = 0;
        while column < width
            invariant
                valid_dims(width as int, height as int),
                cells@.len() == width as int * height as int,
                stepped == step(cells@, width as int, height as int),
                row < height,
                column <= width,
                next@.len() == width as int * row as int + column as int,
                forall|i: int| 0 <= i < next@.len() ==> #[trigger] next@[i] == stepped[i],
            decreases width - column,
        {
            let neighbors = live_neighbor_count(cells, width, height, row, column);
            let i = grid_index(width, height, row, column);
            let value = next_cell_value(cells[i], neighbors);
            proof {
                lemma_mul_is_commutative(width as int, row as int);
                lemma_flat_index_coords(width as int, row as int, column as int);
            }
            next.push(value);
            column += 1;
        }
        proof {
            assert(width as int * row as int + width as int == width as int * (row as int + 1))
                by (nonlinear_arith);
        }
        row += 1;
    }
    proof {
        assert(next@ =~= stepped);
    }
    next
}

/// A freshly seeded buffer of `len` cells, matching `seeded`.
pub fn seeded_cells(len: u32) -> (cells: Vec<Cell>)
    ensures
        cells@ == seeded(len as int),
{
    let mut cells: Vec<Cell> = Vec::new();
    let mut i: u32 = 0;
    while i < len
        invariant
            i <= len,
            cells@.len() == i as int,
            forall|j: int| 0 <= j < i as int ==> cells@[j] == seed_cell(j),
        decreases len - i,
    {
        if i % 2 == 0 || i % 7 == 0 {
            cells.push(Cell::Alive);
        } else {
            cells.push(Cell::Dead);
        }
        i += 1;
    }
    proof {
        assert(cells@ =~= seeded(len as int));
    }
    cells
}

} // verus!

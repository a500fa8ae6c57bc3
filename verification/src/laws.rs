use vstd::prelude::*;
use crate::cell::Cell;
use crate::grid::{
    advance, cell_at, flat_index, in_bounds, lemma_flat_index_bounds, lemma_flat_index_coords,
    lemma_flat_index_injective, lemma_flat_split, lemma_wrap_dec, lemma_wrap_inc, neighbor_count,
    step, valid_dims,
};

verus! {

/// (row, column) lies inside the 2x2 block whose top-left corner is at
/// (r0, c0). The block's second row and column wrap toroidally, so the
/// block may straddle an edge of the grid.
pub open spec fn in_block(width: int, height: int, r0: int, c0: int, row: int, column: int) -> bool {
    &&& (row == r0 || row == (r0 + 1) % height)
    &&& (column == c0 || column == (c0 + 1) % width)
}

/// A buffer holding a single 2x2 block of Alive cells, its top-left corner
/// at (r0, c0), every other cell Dead: the "block" still life.
pub open spec fn block_pattern(width: int, height: int, r0: int, c0: int) -> Seq<Cell> {
    Seq::new(
        (width * height) as nat,
        |i: int| if in_block(width, height, r0, c0, i / width, i % width) {
            Cell::Alive
        } else {
            Cell::Dead
        },
    )
}

/// What the block pattern holds at an in-bounds coordinate.
proof fn lemma_block_cell(width: int, height: int, r0: int, c0: int, row: int, column: int)
    requires
        1 <= width,
        1 <= height,
        in_bounds(width, height, row, column),
    ensures
        cell_at(block_pattern(width, height, r0, c0), width, row, column) == (if in_block(
            width,
            height,
            r0,
            c0,
            row,
            column,
        ) {
            Cell::Alive
        } else {
            Cell::Dead
        }),
{
    lemma_flat_index_bounds(width, height, row, column);
    lemma_flat_index_coords(width, row, column);
}

/// Toroidal wraparound along rows: a cell in the top row is adjacent to the
/// bottom row. Two buffers that agree everywhere except at (height-1,
/// column), Alive in one and Dead in the other, give a top-row cell at that
/// column neighbor counts that differ by exactly one. (On grids under three
/// rows or two columns the wrapped rows or columns coincide, so the count
/// can change by more; those sizes are left out.)
pub proof fn lemma_row_wraparound(
    cells_on: Seq<Cell>,
    cells_off: Seq<Cell>,
    width: int,
    height: int,
    column: int,
)
    requires
        valid_dims(width, height),
        3 <= height,
        2 <= width,
        0 <= column < width,
        cells_on.len() == width * height,
        cells_off.len() == width * height,
        cell_at(cells_on, width, height - 1, column) is Alive,
        cell_at(cells_off, width, height - 1, column) is Dead,
        forall|i: int|
            0 <= i < width * height && i != flat_index(width, height - 1, column)
                ==> cells_on[i] == cells_off[i],
    ensures
        neighbor_count(cells_on, width, height, 0, column) == neighbor_count(
            cells_off,
            width,
            height,
            0,
            column,
        ) + 1,
{
    lemma_wrap_dec(0, height);
    lemma_wrap_inc(0, height);
    lemma_wrap_dec(column, width);
    lemma_wrap_inc(column, width);
    assert forall|r: int, c: int|
        in_bounds(width, height, r, c) && !(r == height - 1 && c == column) implies cell_at(
        cells_off,
        width,
        r,
        c,
    ) == cell_at(cells_on, width, r, c) by {
        lemma_flat_index_bounds(width, height, r, c);
        if flat_index(width, r, c) == flat_index(width, height - 1, column) {
            lemma_flat_index_injective(width, height, r, c, height - 1, column);
        }
        assert(cells_on[flat_index(width, r, c)] == cells_off[flat_index(width, r, c)]);
    }
}

/// Toroidal wraparound along columns: a cell in the first column is adjacent
/// to the last column. Two buffers that agree everywhere except at (row,
/// width-1), Alive in one and Dead in the other, give a first-column cell at
/// that row neighbor counts that differ by exactly one. (On grids under
/// three columns or two rows the wrapped columns or rows coincide, so the
/// count can change by more; those sizes are left out.)
pub proof fn lemma_column_wraparound(
    cells_on: Seq<Cell>,
    cells_off: Seq<Cell>,
    width: int,
    height: int,
    row: int,
)
    requires
        valid_dims(width, height),
        3 <= width,
        2 <= height,
        0 <= row < height,
        cells_on.len() == width * height,
        cells_off.len() == width * height,
        cell_at(cells_on, width, row, width - 1) is Alive,
        cell_at(cells_off, width, row, width - 1) is Dead,
        forall|i: int|
            0 <= i < width * height && i != flat_index(width, row, width - 1) ==> cells_on[i]
                == cells_off[i],
    ensures
        neighbor_count(cells_on, width, height, row, 0) == neighbor_count(
            cells_off,
            width,
            height,
            row,
            0,
        ) + 1,
{
    lemma_wrap_dec(row, height);
    lemma_wrap_inc(row, height);
    lemma_wrap_dec(0, width);
    lemma_wrap_inc(0, width);
    assert forall|r: int, c: int|
        in_bounds(width, height, r, c) && !(r == row && c == width - 1) implies cell_at(
        cells_off,
        width,
        r,
        c,
    ) == cell_at(cells_on, width, r, c) by {
        lemma_flat_index_bounds(width, height, r, c);
        if flat_index(width, r, c) == flat_index(width, row, width - 1) {
            lemma_flat_index_injective(width, height, r, c, row, width - 1);
        }
        assert(cells_on[flat_index(width, r, c)] == cells_off[flat_index(width, r, c)]);
    }
}

/// The 2x2 block of Alive cells, anywhere on a grid of at least 4x4 cells,
/// edges included, is a still life: one generation step leaves it
/// unchanged. Each Alive cell sees exactly its three block companions; no
/// Dead cell sees three Alive neighbors.
pub proof fn lemma_block_still_life(width: int, height: int, r0: int, c0: int)
    requires
        4 <= width,
        4 <= height,
        in_bounds(width, height, r0, c0),
    ensures
        step(block_pattern(width, height, r0, c0), width, height) == block_pattern(
            width,
            height,
            r0,
            c0,
        ),
{
    let pattern = block_pattern(width, height, r0, c0);
    assert forall|i: int| 0 <= i < width * height implies step(pattern, width, height)[i]
        == pattern[i] by {
        lemma_flat_split(width, height, i);
        let r = i / width;
        let c = i % width;
        lemma_wrap_dec(r, height);
        lemma_wrap_inc(r, height);
        lemma_wrap_dec(c, width);
        lemma_wrap_inc(c, width);
        lemma_wrap_inc(r0, height);
        lemma_wrap_inc(c0, width);
        let up = (r + height - 1) % height;
        let down = (r + 1) % height;
        let left = (c + width - 1) % width;
        let right = (c + 1) % width;
        lemma_block_cell(width, height, r0, c0, r, c);
        lemma_block_cell(width, height, r0, c0, up, left);
        lemma_block_cell(width, height, r0, c0, up, c);
        lemma_block_cell(width, height, r0, c0, up, right);
        lemma_block_cell(width, height, r0, c0, r, left);
        lemma_block_cell(width, height, r0, c0, r, right);
        lemma_block_cell(width, height, r0, c0, down, left);
        lemma_block_cell(width, height, r0, c0, down, c);
        lemma_block_cell(width, height, r0, c0, down, right);
    }
    assert(step(pattern, width, height) =~= pattern);
}

/// The block still life is unchanged by any number of generation steps.
pub proof fn lemma_block_still_life_forever(
    width: int,
    height: int,
    r0: int,
    c0: int,
    count: nat,
)
    requires
        4 <= width,
        4 <= height,
        in_bounds(width, height, r0, c0),
    ensures
        advance(block_pattern(width, height, r0, c0), width, height, count) == block_pattern(
            width,
            height,
            r0,
            c0,
        ),
    decreases count,
{
    if count > 0 {
        lemma_block_still_life_forever(width, height, r0, c0, (count - 1) as nat);
        lemma_block_still_life(width, height, r0, c0);
    }
}

} // verus!

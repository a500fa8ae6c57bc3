use vstd::prelude::*;
use crate::grid::in_bounds;

verus! {

/// Device pixels per cell edge, exclusive of the 1-pixel grid line; cells
/// therefore sit at a pitch of `CELL_SIZE + 1` pixels.
pub const CELL_SIZE: u32 = 6;

/// Canvas extent in pixels across `n` cells: one (CELL_SIZE + 1)-pixel slot
/// per cell plus the closing grid line.
pub open spec fn canvas_extent(n: int) -> int {
    (CELL_SIZE + 1) * n + 1
}

/// Pixel position of the first cell pixel in slot `k`: past `k` earlier
/// slots and the leading grid line.
pub open spec fn cell_origin(k: int) -> int {
    (CELL_SIZE + 1) * k + 1
}

/// A cell slot that exists on the canvas ends strictly inside it.
pub proof fn lemma_cell_origin_bound(k: int, n: int)
    requires
        0 <= k < n,
    ensures
        cell_origin(k) + CELL_SIZE + 1 <= canvas_extent(n),
{
    assert((CELL_SIZE + 1) * k + 1 + CELL_SIZE + 1 <= (CELL_SIZE + 1) * n + 1)
        by (nonlinear_arith)
        requires
            0 <= k < n,
    ;
}

/// The fixed pixel pitch constant handed to the host.
pub fn cell_size() -> (size: u32)
    ensures
        size == CELL_SIZE,
{
    CELL_SIZE
}

/// Canvas pixel extent for `n` cells; the host sizes its canvas element to
/// this in each axis before the first draw.
pub fn canvas_dimension(n: u32) -> (pixels: u32)
    requires
        canvas_extent(n as int) <= u32::MAX,
    ensures
        pixels as int == canvas_extent(n as int),
{
    (CELL_SIZE + 1) * n + 1
}

/// One axis-aligned quad per changed cell, as 4 (x, y) vertex pairs in
/// triangle-fan order: 8 pixel coordinates per cell, corners at the cell's
/// origin and `CELL_SIZE` further along each axis. The host maps these to
/// its float vertex buffer.
pub fn quad_vertices(changes: &Vec<(u32, u32)>, width: u32, height: u32) -> (vertices: Vec<u32>)
    requires
        canvas_extent(width as int) <= u32::MAX,
        canvas_extent(height as int) <= u32::MAX,
        forall|k: int|
            0 <= k < changes@.len() ==> in_bounds(
                width as int,
                height as int,
                (#[trigger] changes@[k]).0 as int,
                changes@[k].1 as int,
            ),
    ensures
        vertices@.len() == changes@.len() * 8,
        forall|k: int|
            0 <= k < changes@.len() ==> {
                let x = cell_origin((#[trigger] changes@[k]).1 as int);
                let y = cell_origin(changes@[k].0 as int);
                &&& vertices@[k * 8] == x
                &&& vertices@[k * 8 + 1] == y
                &&& vertices@[k * 8 + 2] == x + CELL_SIZE
                &&& vertices@[k * 8 + 3] == y
                &&& vertices@[k * 8 + 4] == x + CELL_SIZE
                &&& vertices@[k * 8 + 5] == y + CELL_SIZE
                &&& vertices@[k * 8 + 6] == x
                &&& vertices@[k * 8 + 7] == y + CELL_SIZE
            },
{
    let mut vertices: Vec<u32> = Vec::new();
    let mut k: usize = 0;
    while k < changes.len()
        invariant
            k <= changes@.len(),
            canvas_extent(width as int) <= u32::MAX,
            canvas_extent(height as int) <= u32::MAX,
            forall|j: int|
                0 <= j < changes@.len() ==> in_bounds(
                    width as int,
                    height as int,
                    (#[trigger] changes@[j]).0 as int,
                    changes@[j].1 as int,
                ),
            vertices@.len() == k * 8,
            forall|j: int|
                0 <= j < k ==> {
                    let x = cell_origin((#[trigger] changes@[j]).1 as int);
                    let y = cell_origin(changes@[j].0 as int);
                    &&& vertices@[j * 8] == x
                    &&& vertices@[j * 8 + 1] == y
                    &&& vertices@[j * 8 + 2] == x + CELL_SIZE
                    &&& vertices@[j * 8 + 3] == y
                    &&& vertices@[j * 8 + 4] == x + CELL_SIZE
                    &&& vertices@[j * 8 + 5] == y + CELL_SIZE
                    &&& vertices@[j * 8 + 6] == x
                    &&& vertices@[j * 8 + 7] == y + CELL_SIZE
                },
        decreases changes@.len() - k,
    {
        let (row, column) = changes[k];
        proof {
            assert(in_bounds(
                width as int,
                height as int,
                changes@[k as int].0 as int,
                changes@[k as int].1 as int,
            ));
            lemma_cell_origin_bound(column as int, width as int);
            lemma_cell_origin_bound(row as int, height as int);
        }
        let x = (CELL_SIZE + 1) * column + 1;
        let y = (CELL_SIZE + 1) * row + 1;
        vertices.push(x);
        vertices.push(y);
        vertices.push(x + CELL_SIZE);
        vertices.push(y);
        vertices.push(x + CELL_SIZE);
        vertices.push(y + CELL_SIZE);
        vertices.push(x);
        vertices.push(y + CELL_SIZE);
        k += 1;
    }
    vertices
}

} // verus!

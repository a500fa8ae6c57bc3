use vstd::prelude::*;
use vstd::arithmetic::mul::lemma_mul_is_commutative;
use crate::cell::Cell;
use crate::grid::{
    cell_at, flat_index, grid_index, in_bounds, lemma_flat_index_bounds, valid_dims,
};

verus! {

/// No coordinate pair occurs twice in the list.
pub open spec fn distinct_coords(s: Seq<(u32, u32)>) -> bool {
    forall|i: int, j: int| 0 <= i < j < s.len() ==> s[i] != s[j]
}

/// Pushing a coordinate extends membership by exactly that coordinate.
pub proof fn lemma_push_contains(s: Seq<(u32, u32)>, x: (u32, u32))
    ensures
        forall|q: (u32, u32)| #[trigger] s.push(x).contains(q) <==> (s.contains(q) || q == x),
{
    assert forall|q: (u32, u32)| #[trigger] s.push(x).contains(q) implies (s.contains(q) || q
        == x) by {
        let j = choose|j: int| 0 <= j < s.push(x).len() && s.push(x)[j] == q;
        if j < s.len() {
            assert(s[j] == q);
        }
    }
    assert forall|q: (u32, u32)| (s.contains(q) || q == x) implies #[trigger] s.push(x).contains(
        q,
    ) by {
        if s.contains(q) {
            let j = choose|j: int| 0 <= j < s.len() && s[j] == q;
            assert(s.push(x)[j] == q);
        } else {
            assert(s.push(x)[s.len() as int] == q);
        }
    }
}

/// Whether the list holds the coordinate pair (row, column).
pub fn coords_contain(list: &Vec<(u32, u32)>, p: (u32, u32)) -> (found: bool)
    ensures
        found == list@.contains(p),
{
    let mut i: usize = 0;
    while i < list.len()
        invariant
            i <= list@.len(),
            forall|j: int| 0 <= j < i ==> list@[j] != p,
        decreases list@.len() - i,
    {
        let q = list[i];
        if q.0 == p.0 && q.1 == p.1 {
            assert(list@[i as int] == p);
            return true;
        }
        i += 1;
    }
    false
}

/// The coordinates whose cell is Alive, scanned in row-major order.
pub fn alive_coords(cells: &Vec<Cell>, width: u32, height: u32) -> (list: Vec<(u32, u32)>)
    requires
        valid_dims(width as int, height as int),
        cells@.len() == width as int * height as int,
    ensures
        distinct_coords(list@),
        forall|p: (u32, u32)| #[trigger] list@.contains(p) <==> (in_bounds(
            width as int,
            height as int,
            p.0 as int,
            p.1 as int,
        ) && cell_at(cells@, width as int, p.0 as int, p.1 as int) is Alive),
{
    let ghost w = width as int;
    let ghost h = height as int;
    let mut list: Vec<(u32, u32)> = Vec::new();
    let mut row: u32 = 0;
    while row < height
        invariant
            valid_dims(w, h),
            w == width as int,
            h == height as int,
            cells@.len() == w * h,
            row <= height,
            distinct_coords(list@),
            forall|k: int| 0 <= k < list@.len() ==> in_bounds(
                w,
                h,
                (#[trigger] list@[k]).0 as int,
                list@[k].1 as int,
            ) && flat_index(w, list@[k].0 as int, list@[k].1 as int) < flat_index(w, row as int, 0)
                && cell_at(cells@, w, list@[k].0 as int, list@[k].1 as int) is Alive,
            forall|r: int, c: int| in_bounds(w, h, r, c) && #[trigger] flat_index(w, r, c)
                < flat_index(w, row as int, 0) && cell_at(cells@, w, r, c) is Alive
                ==> list@.contains((r as u32, c as u32)),
        decreases height - row,
    {
        let mut column: u32 = 0;
        while column < width
            invariant
                valid_dims(w, h),
                w == width as int,
                h == height as int,
                cells@.len() == w * h,
                row < height,
                column <= width,
                distinct_coords(list@),
                forall|k: int| 0 <= k < list@.len() ==> in_bounds(
                    w,
                    h,
                    (#[trigger] list@[k]).0 as int,
                    list@[k].1 as int,
                ) && flat_index(w, list@[k].0 as int, list@[k].1 as int) < flat_index(
                    w,
                    row as int,
                    column as int,
                ) && cell_at(cells@, w, list@[k].0 as int, list@[k].1 as int) is Alive,
                forall|r: int, c: int| in_bounds(w, h, r, c) && #[trigger] flat_index(w, r, c)
                    < flat_index(w, row as int, column as int) && cell_at(cells@, w, r, c) is Alive
                    ==> list@.contains((r as u32, c as u32)),
            decreases width - column,
        {
            let i = grid_index(width, height, row, column);
            proof {
                lemma_push_contains(list@, (row, column));
                assert forall|r: int, c: int|
                    in_bounds(w, h, r, c) && #[trigger] flat_index(w, r, c) == flat_index(
                        w,
                        row as int,
                        column as int,
                    ) implies r == row as int && c == column as int by {
                    crate::grid::lemma_flat_index_injective(w, h, r, c, row as int, column as int);
                }
            }
            if cells[i].is_alive() {
                list.push((row, column));
            }
            column += 1;
        }
        proof {
            assert((row as int + 1) * w == row as int * w + w) by (nonlinear_arith);
        }
        row += 1;
    }
    proof {
        lemma_mul_is_commutative(w, h);
        assert forall|p: (u32, u32)| #[trigger] list@.contains(p) implies (in_bounds(
            w,
            h,
            p.0 as int,
            p.1 as int,
        ) && cell_at(cells@, w, p.0 as int, p.1 as int) is Alive) by {
            let k = choose|k: int| 0 <= k < list@.len() && list@[k] == p;
            assert(list@[k] == p);
        }
        assert forall|p: (u32, u32)| (in_bounds(w, h, p.0 as int, p.1 as int) && cell_at(
            cells@,
            w,
            p.0 as int,
            p.1 as int,
        ) is Alive) implies #[trigger] list@.contains(p) by {
            lemma_flat_index_bounds(w, h, p.0 as int, p.1 as int);
        }
    }
    list
}

} // verus!

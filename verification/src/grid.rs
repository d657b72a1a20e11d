//! Grid occupancy map: a boolean lattice over the playfield, `true`
//! exactly where a placed waypoint reserves a cell. It lives for one
//! spawn episode and is cleared and rebuilt on reset.

use vstd::prelude::*;

verus! {

/// The cell `(c, r)` lies on a `gw x gh` grid.
pub open spec fn in_grid(gw: int, gh: int, c: int, r: int) -> bool {
    0 <= c < gw && 0 <= r < gh
}

/// Row-major index of cell `(c, r)`.
pub open spec fn cell_index(gw: int, c: int, r: int) -> int {
    r * gw + c
}

/// The occupancy bit of cell `(c, r)`.
pub open spec fn grid_occupied(g: Seq<bool>, gw: int, c: int, r: int) -> bool {
    g[cell_index(gw, c, r)]
}

/// Two cells are the same or orthogonally adjacent.
pub open spec fn cell_near(c1: int, r1: int, c2: int, r2: int) -> bool {
    ||| (c1 == c2 && r1 == r2)
    ||| (c1 == c2 + 1 && r1 == r2)
    ||| (c1 + 1 == c2 && r1 == r2)
    ||| (c1 == c2 && r1 == r2 + 1)
    ||| (c1 == c2 && r1 + 1 == r2)
}

/// The cell `(c, r)` and all of its orthogonal neighbours on the grid
/// are unoccupied: placing here keeps walking room around every pad.
pub open spec fn cell_free_isolated(g: Seq<bool>, gw: int, gh: int, c: int, r: int) -> bool {
    &&& !grid_occupied(g, gw, c, r)
    &&& (c > 0 ==> !grid_occupied(g, gw, c - 1, r))
    &&& (c + 1 < gw ==> !grid_occupied(g, gw, c + 1, r))
    &&& (r > 0 ==> !grid_occupied(g, gw, c, r - 1))
    &&& (r + 1 < gh ==> !grid_occupied(g, gw, c, r + 1))
}

/// No occupied cell of the grid is equal or orthogonally adjacent to
/// `(c, r)`.
pub open spec fn cell_clear_of_grid(g: Seq<bool>, gw: int, gh: int, c: int, r: int) -> bool {
    forall|c2: int, r2: int|
        in_grid(gw, gh, c2, r2) && grid_occupied(g, gw, c2, r2) ==> !cell_near(c, r, c2, r2)
}

/// A cell's row-major index is within a `gw * gh` buffer.
pub proof fn lemma_cell_index_bounds(gw: int, gh: int, c: int, r: int)
    requires
        in_grid(gw, gh, c, r),
    ensures
        0 <= cell_index(gw, c, r) < gw * gh,
{
    assert(0 <= r * gw + c < gw * gh) by (nonlinear_arith)
        requires
            0 <= c < gw,
            0 <= r < gh;
}

/// Row-major indexing is injective over the grid.
pub proof fn lemma_cell_index_injective(gw: int, gh: int, c1: int, r1: int, c2: int, r2: int)
    requires
        in_grid(gw, gh, c1, r1),
        in_grid(gw, gh, c2, r2),
        cell_index(gw, c1, r1) == cell_index(gw, c2, r2),
    ensures
        c1 == c2 && r1 == r2,
{
    assert(c1 == c2 && r1 == r2) by (nonlinear_arith)
        requires
            0 <= c1 < gw,
            0 <= c2 < gw,
            r1 * gw + c1 == r2 * gw + c2;
}

/// A free-and-isolated cell has no occupied cell near it: any occupied
/// near cell would be the cell itself or one of its four neighbours.
pub proof fn lemma_free_isolated_clear(g: Seq<bool>, gw: int, gh: int, c: int, r: int)
    requires
        g.len() == gw * gh,
        in_grid(gw, gh, c, r),
        cell_free_isolated(g, gw, gh, c, r),
    ensures
        cell_clear_of_grid(g, gw, gh, c, r),
{
}

/// Occupying one cell adds exactly that cell to the occupancy relation.
pub proof fn lemma_occupy_one(g: Seq<bool>, gw: int, gh: int, c: int, r: int)
    requires
        g.len() == gw * gh,
        in_grid(gw, gh, c, r),
    ensures
        forall|c2: int, r2: int|
            in_grid(gw, gh, c2, r2) ==> grid_occupied(
                g.update(cell_index(gw, c, r), true),
                gw,
                c2,
                r2,
            ) == (grid_occupied(g, gw, c2, r2) || (c2 == c && r2 == r)),
{
    lemma_cell_index_bounds(gw, gh, c, r);
    assert forall|c2: int, r2: int| in_grid(gw, gh, c2, r2) implies grid_occupied(
        g.update(cell_index(gw, c, r), true),
        gw,
        c2,
        r2,
    ) == (grid_occupied(g, gw, c2, r2) || (c2 == c && r2 == r)) by {
        lemma_cell_index_bounds(gw, gh, c2, r2);
        if cell_index(gw, c2, r2) == cell_index(gw, c, r) {
            lemma_cell_index_injective(gw, gh, c2, r2, c, r);
        }
    }
}

/// Test whether the cell and its orthogonal neighbours are unoccupied.
pub fn is_free_isolated(g: &Vec<bool>, gw: usize, gh: usize, c: usize, r: usize) -> (b: bool)
    requires
        g@.len() == gw * gh,
        c < gw,
        r < gh,
    ensures
        b == cell_free_isolated(g@, gw as int, gh as int, c as int, r as int),
{
    proof {
        lemma_cell_index_bounds(gw as int, gh as int, c as int, r as int);
        if c > 0 {
            lemma_cell_index_bounds(gw as int, gh as int, c as int - 1, r as int);
        }
        if c + 1 < gw {
            lemma_cell_index_bounds(gw as int, gh as int, c as int + 1, r as int);
        }
        if r > 0 {
            lemma_cell_index_bounds(gw as int, gh as int, c as int, r as int - 1);
        }
        if r + 1 < gh {
            lemma_cell_index_bounds(gw as int, gh as int, c as int, r as int + 1);
        }
    }
    let bound = g.len();
    let idx = r * gw + c;
    proof {
        assert(idx < bound);
        // Row offsets: the cells one row up and one row down sit exactly
        // gw entries away in the row-major buffer.
        assert((r as int - 1) * (gw as int) == (r as int) * (gw as int) - gw) by (nonlinear_arith);
        assert((r as int + 1) * (gw as int) == (r as int) * (gw as int) + gw) by (nonlinear_arith);
    }
    if g[idx] {
        return false;
    }
    if c > 0 && g[idx - 1] {
        return false;
    }
    if c + 1 < gw && g[idx + 1] {
        return false;
    }
    if r > 0 {
        proof {
            assert(r * gw + c >= gw) by (nonlinear_arith)
                requires
                    r >= 1,
                    gw >= 0,
                    c >= 0;
        }
        if g[idx - gw] {
            return false;
        }
    }
    if r + 1 < gh && g[idx + gw] {
        return false;
    }
    true
}

/// Mark the cell `(c, r)` occupied.
pub fn occupy(g: &mut Vec<bool>, gw: usize, gh: usize, c: usize, r: usize)
    requires
        old(g)@.len() == gw * gh,
        c < gw,
        r < gh,
    ensures
        final(g)@ == old(g)@.update(cell_index(gw as int, c as int, r as int), true),
{
    proof {
        lemma_cell_index_bounds(gw as int, gh as int, c as int, r as int);
    }
    let bound = g.len();
    let idx = r * gw + c;
    assert(idx < bound);
    g.set(idx, true);
}

} // verus!

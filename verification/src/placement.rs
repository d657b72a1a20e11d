//! Procedural spawn placement: an ordered chain of waypoints is walked
//! onto the grid with bounded retries, so that no two pads overlap or
//! even touch orthogonally.

use vstd::prelude::*;
use vstd::arithmetic::div_mod::lemma_mod_division_less_than_divisor;

verus! {

use crate::entities::MAX_WAYPOINTS;
use crate::entities::Role;
use crate::entities::Waypoint;
use crate::grid::cell_clear_of_grid;
use crate::grid::cell_free_isolated;
use crate::grid::cell_index;
use crate::grid::cell_near;
use crate::grid::in_grid;
use crate::grid::grid_occupied;
use crate::grid::is_free_isolated;
use crate::grid::lemma_cell_index_bounds;
use crate::grid::lemma_free_isolated_clear;
use crate::grid::lemma_occupy_one;
use crate::grid::occupy;
use crate::rng::Rng;
use crate::rng::rng_in_range;
use crate::rng::lemma_rng_in_range_bounds;
use crate::rng::rng_next;

/// Retry budget for placing one waypoint.
pub const PLACE_TRIES: u32 = 100;

/// The candidate cell of one placement attempt from the previous cell
/// `(pc, pr)`: one generator bit picks the axis, one draw picks a step
/// in `[5, 11]`, and the step wraps around the moving axis.
pub open spec fn spec_candidate(gw: int, gh: int, pc: int, pr: int, s: u32) -> (int, int) {
    let axis = rng_next(s) % 2;
    let step = rng_in_range(rng_next(s), 5, 11);
    if axis == 0 {
        ((pc + step) % gw, pr)
    } else {
        (pc, (pr + step) % gh)
    }
}

/// Up to `tries` placement attempts from `(pc, pr)`: the first
/// candidate whose cell is free and isolated is accepted; the second
/// component is the generator state left behind.
#[verifier::opaque]
pub open spec fn spec_try_place(
    g: Seq<bool>,
    gw: int,
    gh: int,
    pc: int,
    pr: int,
    s: u32,
    tries: int,
) -> (Option<(int, int)>, u32)
    decreases tries,
{
    if tries <= 0 {
        (None, s)
    } else {
        let cand = spec_candidate(gw, gh, pc, pr, s);
        let s2 = rng_next(rng_next(s));
        if cell_free_isolated(g, gw, gh, cand.0, cand.1) {
            (Some(cand), s2)
        } else {
            spec_try_place(g, gw, gh, pc, pr, s2, tries - 1)
        }
    }
}

/// The chain cells placed after the initial one: each subsequent
/// waypoint gets a retry budget; when the budget runs out the chain is
/// abandoned there and stays shorter than requested. Returns the placed
/// cells in chain order, the grid with them marked occupied, and the
/// generator state left behind.
#[verifier::opaque]
pub open spec fn spec_place_chain(
    g: Seq<bool>,
    gw: int,
    gh: int,
    pc: int,
    pr: int,
    s: u32,
    slots: int,
) -> (Seq<(int, int)>, Seq<bool>, u32)
    decreases slots,
{
    if slots <= 0 {
        (Seq::<(int, int)>::empty(), g, s)
    } else {
        let att = spec_try_place(g, gw, gh, pc, pr, s, PLACE_TRIES as int);
        match att.0 {
            None => (Seq::<(int, int)>::empty(), g, att.1),
            Some(cell) => {
                let g1 = g.update(cell_index(gw, cell.0, cell.1), true);
                let rest = spec_place_chain(g1, gw, gh, cell.0, cell.1, att.1, slots - 1);
                (seq![cell] + rest.0, rest.1, rest.2)
            },
        }
    }
}

/// A whole spawn episode on a cleared grid: the chain length is drawn
/// from `[2, MAX_WAYPOINTS]`, the initial cell uniformly on the grid,
/// and the remaining cells by the bounded-retry walk. Returns the chain
/// cells, the final occupancy grid and the generator state.
pub open spec fn spec_spawn_chain(gw: int, gh: int, s0: u32) -> (Seq<(int, int)>, Seq<bool>, u32) {
    let n = rng_in_range(s0, 2, MAX_WAYPOINTS as u32);
    let s1 = rng_next(s0);
    let c0 = rng_in_range(s1, 0, (gw - 1) as u32);
    let s2 = rng_next(s1);
    let r0 = rng_in_range(s2, 0, (gh - 1) as u32);
    let s3 = rng_next(s2);
    let blank = Seq::new((gw * gh) as nat, |i: int| false);
    let g0 = blank.update(cell_index(gw, c0 as int, r0 as int), true);
    let rest = spec_place_chain(g0, gw, gh, c0 as int, r0 as int, s3, n - 1);
    (seq![(c0 as int, r0 as int)] + rest.0, rest.1, rest.2)
}

/// Role of chain index `i`: the chain starts on its first pad, aims at
/// its second, and queues the rest.
pub open spec fn spec_role_for_index(i: int) -> Role {
    if i == 0 {
        Role::Current
    } else if i == 1 {
        Role::NextTarget
    } else {
        Role::Queued
    }
}

/// The waypoint array built from the chain cells: pixel position is
/// `cell * size`, roles go by chain index, unused slots are inactive.
pub open spec fn spec_waypoints_of_cells(cells: Seq<(int, int)>, size: u32) -> Seq<Waypoint> {
    Seq::new(
        MAX_WAYPOINTS as nat,
        |i: int|
            if i < cells.len() {
                Waypoint {
                    x: (cells[i].0 * size) as u32,
                    y: (cells[i].1 * size) as u32,
                    role: spec_role_for_index(i),
                }
            } else {
                Waypoint { x: 0, y: 0, role: Role::Inactive }
            },
    )
}

/// An accepted attempt lands on a free and isolated cell of the grid.
pub proof fn lemma_try_place_ok(
    g: Seq<bool>,
    gw: int,
    gh: int,
    pc: int,
    pr: int,
    s: u32,
    tries: int,
)
    requires
        gw >= 1,
        gh >= 1,
        0 <= pc < gw,
        0 <= pr < gh,
    ensures
        spec_try_place(g, gw, gh, pc, pr, s, tries).0 matches Some(cell) ==> in_grid(
            gw,
            gh,
            cell.0,
            cell.1,
        ) && cell_free_isolated(g, gw, gh, cell.0, cell.1),
    decreases tries,
{
    reveal_with_fuel(spec_try_place, 2);
    if tries > 0 {
        let cand = spec_candidate(gw, gh, pc, pr, s);
        let step = rng_in_range(rng_next(s), 5, 11);
        lemma_mod_division_less_than_divisor(pc + step, gw);
        lemma_mod_division_less_than_divisor(pr + step, gh);
        if !cell_free_isolated(g, gw, gh, cand.0, cand.1) {
            lemma_try_place_ok(g, gw, gh, pc, pr, rng_next(rng_next(s)), tries - 1);
        }
    }
}

/// What the bounded-retry walk guarantees: every placed cell lies on
/// the grid, keeps clear of everything that was already occupied, and
/// the placed cells keep clear of one another; the resulting grid is
/// the input grid plus exactly the placed cells.
#[verifier::rlimit(100)]
pub proof fn lemma_place_chain_ok(
    g: Seq<bool>,
    gw: int,
    gh: int,
    pc: int,
    pr: int,
    s: u32,
    slots: int,
)
    requires
        gw >= 1,
        gh >= 1,
        0 <= pc < gw,
        0 <= pr < gh,
        g.len() == gw * gh,
    ensures
        ({
            let (cells, g2, _) = spec_place_chain(g, gw, gh, pc, pr, s, slots);
            &&& cells.len() <= (if slots >= 0 { slots } else { 0 })
            &&& g2.len() == g.len()
            &&& forall|k: int|
                0 <= k < cells.len() ==> in_grid(gw, gh, (#[trigger] cells[k]).0, cells[k].1)
            &&& forall|k: int|
                0 <= k < cells.len() ==> cell_clear_of_grid(
                    g,
                    gw,
                    gh,
                    (#[trigger] cells[k]).0,
                    cells[k].1,
                )
            &&& forall|k: int, l: int|
                0 <= k < l < cells.len() ==> !cell_near(
                    (#[trigger] cells[k]).0,
                    cells[k].1,
                    (#[trigger] cells[l]).0,
                    cells[l].1,
                )
            &&& forall|c2: int, r2: int|
                in_grid(gw, gh, c2, r2) ==> #[trigger] grid_occupied(g2, gw, c2, r2) == (
                grid_occupied(g, gw, c2, r2) || cells.contains((c2, r2)))
        }),
    decreases slots,
{
    reveal_with_fuel(spec_place_chain, 2);
    let (cells, g2, _) = spec_place_chain(g, gw, gh, pc, pr, s, slots);
    if slots <= 0 {
        assert(forall|c2: int, r2: int|
            in_grid(gw, gh, c2, r2) ==> #[trigger] grid_occupied(g2, gw, c2, r2) == (grid_occupied(
                g,
                gw,
                c2,
                r2,
            ) || cells.contains((c2, r2))));
    } else {
        let att = spec_try_place(g, gw, gh, pc, pr, s, PLACE_TRIES as int);
        lemma_try_place_ok(g, gw, gh, pc, pr, s, PLACE_TRIES as int);
        match att.0 {
            None => {
                assert(cells =~= Seq::<(int, int)>::empty());
            },
            Some(cell) => {
                let g1 = g.update(cell_index(gw, cell.0, cell.1), true);
                let rest = spec_place_chain(g1, gw, gh, cell.0, cell.1, att.1, slots - 1).0;
                lemma_cell_index_bounds(gw, gh, cell.0, cell.1);
                lemma_free_isolated_clear(g, gw, gh, cell.0, cell.1);
                lemma_occupy_one(g, gw, gh, cell.0, cell.1);
                lemma_place_chain_ok(g1, gw, gh, cell.0, cell.1, att.1, slots - 1);
                assert(cells.len() == 1 + rest.len());
                assert(cells[0] == cell);
                assert(forall|k: int| 0 <= k < rest.len() ==> cells[k + 1] == rest[k]);
                // Each later cell keeps clear of the grid with `cell`
                // added, hence of the old grid and of `cell` itself.
                assert forall|k: int| 0 <= k < cells.len() implies in_grid(
                    gw,
                    gh,
                    (#[trigger] cells[k]).0,
                    cells[k].1,
                ) && cell_clear_of_grid(g, gw, gh, cells[k].0, cells[k].1) by {
                    if k > 0 {
                        assert(cells[k] == rest[k - 1]);
                        assert(cell_clear_of_grid(g1, gw, gh, cells[k].0, cells[k].1));
                        assert forall|c2: int, r2: int|
                            in_grid(gw, gh, c2, r2) && grid_occupied(
                                g,
                                gw,
                                c2,
                                r2,
                            ) implies !cell_near(cells[k].0, cells[k].1, c2, r2) by {
                            assert(grid_occupied(g1, gw, c2, r2));
                        }
                    }
                }
                assert forall|k: int, l: int| 0 <= k < l < cells.len() implies !cell_near(
                    (#[trigger] cells[k]).0,
                    cells[k].1,
                    (#[trigger] cells[l]).0,
                    cells[l].1,
                ) by {
                    assert(cells[l] == rest[l - 1]);
                    assert(cell_clear_of_grid(g1, gw, gh, cells[l].0, cells[l].1));
                    if k == 0 {
                        assert(grid_occupied(g1, gw, cell.0, cell.1));
                        assert(!cell_near(cells[l].0, cells[l].1, cell.0, cell.1));
                    }
                }
                assert forall|c2: int, r2: int| in_grid(gw, gh, c2, r2) implies #[trigger]
                    grid_occupied(g2, gw, c2, r2) == (grid_occupied(g, gw, c2, r2)
                    || cells.contains((c2, r2))) by {
                    assert(grid_occupied(g2, gw, c2, r2) == (grid_occupied(g1, gw, c2, r2)
                        || rest.contains((c2, r2))));
                    if rest.contains((c2, r2)) {
                        let k = choose|k: int| 0 <= k < rest.len() && rest[k] == (c2, r2);
                        assert(cells[k + 1] == (c2, r2));
                        assert(cells.contains((c2, r2)));
                    }
                    if cells.contains((c2, r2)) {
                        let k = choose|k: int| 0 <= k < cells.len() && cells[k] == (c2, r2);
                        if k > 0 {
                            assert(rest[k - 1] == (c2, r2));
                            assert(rest.contains((c2, r2)));
                        }
                    }
                }
            },
        }
    }
}

/// No two chain cells of a successful spawn are equal or orthogonally
/// adjacent, every cell lies on the grid, and a spawn places between
/// one and `MAX_WAYPOINTS` pads.
pub proof fn lemma_spawn_chain_isolated(gw: int, gh: int, s0: u32)
    requires
        1 <= gw <= 0xffff,
        1 <= gh <= 0xffff,
    ensures
        ({
            let cells = spec_spawn_chain(gw, gh, s0).0;
            &&& 1 <= cells.len() <= MAX_WAYPOINTS
            &&& forall|k: int|
                0 <= k < cells.len() ==> in_grid(gw, gh, (#[trigger] cells[k]).0, cells[k].1)
            &&& forall|k: int, l: int|
                0 <= k < l < cells.len() ==> !cell_near(
                    (#[trigger] cells[k]).0,
                    cells[k].1,
                    (#[trigger] cells[l]).0,
                    cells[l].1,
                )
            &&& spec_spawn_chain(gw, gh, s0).1.len() == gw * gh
        }),
{
    let n = rng_in_range(s0, 2, MAX_WAYPOINTS as u32);
    let s1 = rng_next(s0);
    let c0 = rng_in_range(s1, 0, (gw - 1) as u32);
    let s2 = rng_next(s1);
    let r0 = rng_in_range(s2, 0, (gh - 1) as u32);
    let s3 = rng_next(s2);
    lemma_rng_in_range_bounds(s0, 2, MAX_WAYPOINTS as u32);
    lemma_rng_in_range_bounds(s1, 0, (gw - 1) as u32);
    lemma_rng_in_range_bounds(s2, 0, (gh - 1) as u32);
    let blank = Seq::new((gw * gh) as nat, |i: int| false);
    let g0 = blank.update(cell_index(gw, c0 as int, r0 as int), true);
    lemma_cell_index_bounds(gw, gh, c0 as int, r0 as int);
    lemma_occupy_one(blank, gw, gh, c0 as int, r0 as int);
    lemma_place_chain_ok(g0, gw, gh, c0 as int, r0 as int, s3, n - 1);
    let cells = spec_spawn_chain(gw, gh, s0).0;
    let rest = spec_place_chain(g0, gw, gh, c0 as int, r0 as int, s3, n - 1).0;
    assert(cells.len() == 1 + rest.len());
    assert(cells[0] == (c0 as int, r0 as int));
    assert(forall|k: int| 0 <= k < rest.len() ==> cells[k + 1] == rest[k]);
    assert forall|k: int, l: int| 0 <= k < l < cells.len() implies !cell_near(
        (#[trigger] cells[k]).0,
        cells[k].1,
        (#[trigger] cells[l]).0,
        cells[l].1,
    ) by {
        assert(cells[l] == rest[l - 1]);
        assert(cell_clear_of_grid(g0, gw, gh, cells[l].0, cells[l].1));
        if k == 0 {
            assert(grid_occupied(g0, gw, c0 as int, r0 as int));
            assert(!cell_near(cells[l].0, cells[l].1, c0 as int, r0 as int));
        }
    }
}

/// One placement attempt: draw the candidate cell next to `(pc, pr)`
/// and test whether its cell and neighbours are unoccupied.
fn attempt_once(grid: &Vec<bool>, rng: &mut Rng, gw: usize, gh: usize, pc: usize, pr: usize) -> (r:
    Option<(usize, usize)>)
    requires
        grid@.len() == gw * gh,
        1 <= gw <= 0xffff,
        1 <= gh <= 0xffff,
        pc < gw,
        pr < gh,
    ensures
        final(rng).state == rng_next(rng_next(old(rng).state)),
        ({
            let cand = spec_candidate(gw as int, gh as int, pc as int, pr as int, old(rng).state);
            match r {
                Some(cell) => cand == (cell.0 as int, cell.1 as int) && cell.0 < gw && cell.1 < gh
                    && cell_free_isolated(grid@, gw as int, gh as int, cell.0 as int, cell.1 as int),
                None => !cell_free_isolated(grid@, gw as int, gh as int, cand.0, cand.1),
            }
        }),
{
    let axis = rng.next() % 2;
    let step = rng.rand_in_range(5, 11) as usize;
    let (c, r) = if axis == 0 {
        ((pc + step) % gw, pr)
    } else {
        (pc, (pr + step) % gh)
    };
    if is_free_isolated(grid, gw, gh, c, r) {
        Some((c, r))
    } else {
        None
    }
}

/// Up to the retry budget of placement attempts from `(pc, pr)`.
fn try_place(grid: &Vec<bool>, rng: &mut Rng, gw: usize, gh: usize, pc: usize, pr: usize) -> (r:
    Option<(usize, usize)>)
    requires
        grid@.len() == gw * gh,
        1 <= gw <= 0xffff,
        1 <= gh <= 0xffff,
        pc < gw,
        pr < gh,
    ensures
        ({
            let att = spec_try_place(
                grid@,
                gw as int,
                gh as int,
                pc as int,
                pr as int,
                old(rng).state,
                PLACE_TRIES as int,
            );
            &&& final(rng).state == att.1
            &&& match r {
                Some(cell) => att.0 == Some((cell.0 as int, cell.1 as int)) && cell.0 < gw
                    && cell.1 < gh,
                None => att.0 is None,
            }
        }),
{
    let ghost att = spec_try_place(
        grid@,
        gw as int,
        gh as int,
        pc as int,
        pr as int,
        rng.state,
        PLACE_TRIES as int,
    );
    let mut tries: u32 = 0;
    while tries < PLACE_TRIES
        invariant
            tries <= PLACE_TRIES,
            grid@.len() == gw * gh,
            1 <= gw <= 0xffff,
            1 <= gh <= 0xffff,
            pc < gw,
            pr < gh,
            att == spec_try_place(
                grid@,
                gw as int,
                gh as int,
                pc as int,
                pr as int,
                rng.state,
                PLACE_TRIES - tries,
            ),
            att == spec_try_place(
                grid@,
                gw as int,
                gh as int,
                pc as int,
                pr as int,
                old(rng).state,
                PLACE_TRIES as int,
            ),
        decreases PLACE_TRIES - tries,
    {
        let accepted = attempt_once(grid, rng, gw, gh, pc, pr);
        proof {
            reveal_with_fuel(spec_try_place, 2);
        }
        match accepted {
            Some(cell) => {
                return Some(cell);
            },
            None => {
            },
        }
        tries = tries + 1;
    }
    proof {
        reveal_with_fuel(spec_try_place, 2);
    }
    None
}

/// Spawn a fresh waypoint chain: clear the grid, draw the requested
/// chain length and the initial cell, then walk the remaining pads on
/// with bounded retries. Pads get their pixel positions and chain
/// roles; unused slots become inactive.
#[verifier::rlimit(100)]
pub fn spawn_waypoints(
    grid: &mut Vec<bool>,
    wps: &mut Vec<Waypoint>,
    rng: &mut Rng,
    gw: usize,
    gh: usize,
    size: u32,
)
    requires
        old(grid)@.len() == gw * gh,
        old(wps)@.len() == MAX_WAYPOINTS,
        1 <= gw <= 0xffff,
        1 <= gh <= 0xffff,
        size <= 0xffff,
    ensures
        final(grid)@ == spec_spawn_chain(gw as int, gh as int, old(rng).state).1,
        final(rng).state == spec_spawn_chain(gw as int, gh as int, old(rng).state).2,
        final(wps)@ == spec_waypoints_of_cells(
            spec_spawn_chain(gw as int, gh as int, old(rng).state).0,
            size,
        ),
{
    let ghost s0 = rng.state;
    let n_req = rng.rand_in_range(2, MAX_WAYPOINTS as u32);
    let c0 = rng.rand_in_range(0, (gw as u32) - 1) as usize;
    let r0 = rng.rand_in_range(0, (gh as u32) - 1) as usize;
    // Clear the occupancy map for the new episode.
    let glen = grid.len();
    let mut gi: usize = 0;
    while gi < glen
        invariant
            gi <= glen,
            glen == grid@.len(),
            forall|j: int| 0 <= j < gi ==> grid@[j] == false,
        decreases glen - gi,
    {
        grid.set(gi, false);
        gi = gi + 1;
    }
    proof {
        assert(grid@ =~= Seq::new((gw * gh) as nat, |i: int| false));
    }
    occupy(grid, gw, gh, c0, r0);
    proof {
        lemma_cell_index_bounds(gw as int, gh as int, c0 as int, r0 as int);
        assert((c0 as int) * (size as int) <= 0xffff * 0xffff) by (nonlinear_arith)
            requires
                0 <= c0 as int <= 0xffff,
                0 <= size as int <= 0xffff;
        assert((r0 as int) * (size as int) <= 0xffff * 0xffff) by (nonlinear_arith)
            requires
                0 <= r0 as int <= 0xffff,
                0 <= size as int <= 0xffff;
    }
    wps.set(0, Waypoint { x: (c0 as u32) * size, y: (r0 as u32) * size, role: Role::Current });

    let ghost cells_full = spec_spawn_chain(gw as int, gh as int, s0).0;
    let ghost chain = spec_place_chain(
        grid@,
        gw as int,
        gh as int,
        c0 as int,
        r0 as int,
        rng.state,
        n_req - 1,
    );
    proof {
        assert(cells_full == seq![(c0 as int, r0 as int)] + chain.0);
        assert(spec_spawn_chain(gw as int, gh as int, s0).1 == chain.1);
        assert(spec_spawn_chain(gw as int, gh as int, s0).2 == chain.2);
    }
    let ghost placed = Seq::<(int, int)>::empty();
    let mut placing = true;
    let mut count: usize = 1;
    let mut pc = c0;
    let mut pr = r0;
    while placing && count < n_req as usize
        invariant
            1 <= count <= n_req,
            2 <= n_req <= MAX_WAYPOINTS,
            grid@.len() == gw * gh,
            wps@.len() == MAX_WAYPOINTS,
            1 <= gw <= 0xffff,
            1 <= gh <= 0xffff,
            size <= 0xffff,
            pc < gw,
            pr < gh,
            placed.len() == count - 1,
            cells_full == seq![(c0 as int, r0 as int)] + chain.0,
            placing ==> chain.0 == placed + spec_place_chain(
                grid@,
                gw as int,
                gh as int,
                pc as int,
                pr as int,
                rng.state,
                n_req - count,
            ).0,
            placing ==> chain.1 == spec_place_chain(
                grid@,
                gw as int,
                gh as int,
                pc as int,
                pr as int,
                rng.state,
                n_req - count,
            ).1,
            placing ==> chain.2 == spec_place_chain(
                grid@,
                gw as int,
                gh as int,
                pc as int,
                pr as int,
                rng.state,
                n_req - count,
            ).2,
            !placing ==> chain.0 == placed && chain.1 == grid@ && chain.2 == rng.state,
            forall|j: int|
                0 <= j < count ==> #[trigger] wps@[j] == (Waypoint {
                    x: (cells_full[j].0 * size) as u32,
                    y: (cells_full[j].1 * size) as u32,
                    role: spec_role_for_index(j),
                }),
        decreases n_req - count + (if placing { 1int } else { 0int }),
    {
        let ghost gprev = grid@;
        let ghost sprev = rng.state;
        let placed_cell = try_place(grid, rng, gw, gh, pc, pr);
        match placed_cell {
            None => {
                proof {
                    reveal_with_fuel(spec_place_chain, 2);
                    assert(placed + Seq::<(int, int)>::empty() =~= placed);
                }
                placing = false;
            },
            Some((c, r)) => {
                proof {
                    lemma_cell_index_bounds(gw as int, gh as int, c as int, r as int);
                }
                occupy(grid, gw, gh, c, r);
                let role = if count == 1 {
                    Role::NextTarget
                } else {
                    Role::Queued
                };
                proof {
                    reveal_with_fuel(spec_place_chain, 2);
                    let cell = (c as int, r as int);
                    let rest = spec_place_chain(
                        grid@,
                        gw as int,
                        gh as int,
                        c as int,
                        r as int,
                        rng.state,
                        n_req - count - 1,
                    );
                    assert(spec_place_chain(
                        gprev,
                        gw as int,
                        gh as int,
                        pc as int,
                        pr as int,
                        sprev,
                        n_req - count,
                    ).0 == seq![cell] + rest.0);
                    assert(placed + (seq![cell] + rest.0) =~= (placed + seq![cell]) + rest.0);
                    assert(chain.0[count - 1] == cell);
                    assert(cells_full[count as int] == cell);
                    placed = placed + seq![cell];
                    assert((c as int) * (size as int) <= 0xffff * 0xffff) by (nonlinear_arith)
                        requires
                            0 <= c as int <= 0xffff,
                            0 <= size as int <= 0xffff;
                    assert((r as int) * (size as int) <= 0xffff * 0xffff) by (nonlinear_arith)
                        requires
                            0 <= r as int <= 0xffff,
                            0 <= size as int <= 0xffff;
                }
                wps.set(count, Waypoint { x: (c as u32) * size, y: (r as u32) * size, role });
                pc = c;
                pr = r;
                count = count + 1;
            },
        }
    }
    proof {
        reveal_with_fuel(spec_place_chain, 2);
        if placing {
            assert(placed + Seq::<(int, int)>::empty() =~= placed);
        }
        assert(chain.0 == placed && chain.1 == grid@ && chain.2 == rng.state);
        assert(cells_full.len() == count);
    }
    // Any remaining slots are unused this episode.
    let mut fi: usize = count;
    while fi < MAX_WAYPOINTS
        invariant
            count <= fi <= MAX_WAYPOINTS,
            wps@.len() == MAX_WAYPOINTS,
            size <= 0xffff,
            count <= cells_full.len(),
            forall|j: int|
                0 <= j < count ==> #[trigger] wps@[j] == (Waypoint {
                    x: (cells_full[j].0 * size) as u32,
                    y: (cells_full[j].1 * size) as u32,
                    role: spec_role_for_index(j),
                }),
            forall|j: int|
                count <= j < fi ==> #[trigger] wps@[j] == (Waypoint {
                    x: 0,
                    y: 0,
                    role: Role::Inactive,
                }),
        decreases MAX_WAYPOINTS - fi,
    {
        wps.set(fi, Waypoint { x: 0, y: 0, role: Role::Inactive });
        fi = fi + 1;
    }
    proof {
        assert(cells_full.len() == count);
        assert(wps@ =~= spec_waypoints_of_cells(cells_full, size));
    }
}

/// For all successful placements, no two active waypoints' grid cells
/// are equal or orthogonally adjacent: the pads of a fresh spawn leave
/// walking room around one another.
pub proof fn lemma_spawned_waypoints_isolated(gw: int, gh: int, s0: u32, size: u32)
    requires
        1 <= gw <= 0xffff,
        1 <= gh <= 0xffff,
        1 <= size <= 0xffff,
    ensures
        ({
            let wps = spec_waypoints_of_cells(spec_spawn_chain(gw, gh, s0).0, size);
            forall|k: int, l: int|
                0 <= k < l < wps.len() && (#[trigger] wps[k]).role != Role::Inactive
                    && (#[trigger] wps[l]).role != Role::Inactive ==> !cell_near(
                    wps[k].x as int / size as int,
                    wps[k].y as int / size as int,
                    wps[l].x as int / size as int,
                    wps[l].y as int / size as int,
                )
        }),
{
    lemma_spawn_chain_isolated(gw, gh, s0);
    let cells = spec_spawn_chain(gw, gh, s0).0;
    let wps = spec_waypoints_of_cells(cells, size);
    assert forall|k: int, l: int|
        0 <= k < l < wps.len() && (#[trigger] wps[k]).role != Role::Inactive && (#[trigger]
        wps[l]).role != Role::Inactive implies !cell_near(
        wps[k].x as int / size as int,
        wps[k].y as int / size as int,
        wps[l].x as int / size as int,
        wps[l].y as int / size as int,
    ) by {
        assert(k < cells.len() && l < cells.len());
        lemma_pixel_cell_roundtrip(cells[k].0, size);
        lemma_pixel_cell_roundtrip(cells[k].1, size);
        lemma_pixel_cell_roundtrip(cells[l].0, size);
        lemma_pixel_cell_roundtrip(cells[l].1, size);
    }
}

/// A fresh chain satisfies the chain invariant: roles go by index, so
/// `Current` appears only in slot 0 and `NextTarget` only in slot 1.
pub proof fn lemma_waypoints_of_cells_chain_wf(cells: Seq<(int, int)>, size: u32)
    ensures
        crate::motion::chain_wf(spec_waypoints_of_cells(cells, size)),
        cells.len() >= 1 ==> spec_waypoints_of_cells(cells, size)[0].role == Role::Current,
{
}

/// A pixel coordinate `c * size` recovers its cell by division.
proof fn lemma_pixel_cell_roundtrip(c: int, size: u32)
    requires
        0 <= c <= 0xffff,
        1 <= size <= 0xffff,
    ensures
        ((c * size) as u32) as int / size as int == c,
{
    assert(0 <= c * size < 0x100000000 && (c * size) / (size as int) == c) by (nonlinear_arith)
        requires
            0 <= c <= 0xffff,
            1 <= size as int <= 0xffff;
}

} // verus!

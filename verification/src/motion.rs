//! Waypoint-chain state machine and actor motion.
//!
//! Once per tick, while a move is requested, the pad holding the actor
//! (`Current`) travels towards the `NextTarget` pad at a fixed speed.
//! When the remaining distance is within one step, the actor snaps onto
//! the target exactly, the chain advances one link, and the request is
//! considered served.

use vstd::prelude::*;
use vstd::arithmetic::div_mod::lemma_fundamental_div_mod;
use vstd::arithmetic::div_mod::lemma_mod_division_less_than_divisor;

verus! {

use crate::entities::Role;
use crate::entities::Waypoint;
use crate::geom::isqrt;
use crate::geom::sqrt_approx;

/// The first slot at or after `i` whose role is `role`.
pub open spec fn find_role_from(wps: Seq<Waypoint>, role: Role, i: int) -> Option<int>
    decreases wps.len() - i,
{
    if i >= wps.len() {
        None
    } else if wps[i].role == role {
        Some(i)
    } else {
        find_role_from(wps, role, i + 1)
    }
}

/// The first slot whose role is `role`: chain lookups go by role, not
/// by position.
pub open spec fn find_role(wps: Seq<Waypoint>, role: Role) -> Option<int> {
    find_role_from(wps, role, 0)
}

/// What a successful or failed role lookup means slot by slot.
pub proof fn lemma_find_role_from(wps: Seq<Waypoint>, role: Role, i: int)
    requires
        0 <= i,
    ensures
        match find_role_from(wps, role, i) {
            Some(k) => i <= k < wps.len() && wps[k].role == role && (forall|j: int|
                i <= j < k ==> wps[j].role != role),
            None => forall|j: int| i <= j < wps.len() ==> wps[j].role != role,
        },
    decreases wps.len() - i,
{
    if i < wps.len() && wps[i].role != role {
        lemma_find_role_from(wps, role, i + 1);
    }
}

/// Find the first slot holding the given role.
pub fn find_role_index(wps: &Vec<Waypoint>, role: Role) -> (r: Option<usize>)
    ensures
        match r {
            Some(k) => k < wps@.len() && find_role(wps@, role) == Some(k as int),
            None => find_role(wps@, role) is None,
        },
{
    let n = wps.len();
    let mut i: usize = 0;
    while i < n
        invariant
            i <= n,
            n == wps@.len(),
            find_role(wps@, role) == find_role_from(wps@, role, i as int),
        decreases n - i,
    {
        if wps[i].role == role {
            return Some(i);
        }
        i = i + 1;
    }
    None
}

/// At most one slot of the chain holds the given role.
pub open spec fn at_most_one_role(wps: Seq<Waypoint>, role: Role) -> bool {
    forall|i: int, j: int|
        0 <= i < wps.len() && 0 <= j < wps.len() && (#[trigger] wps[i]).role == role
            && (#[trigger] wps[j]).role == role ==> i == j
}

/// The chain invariant: once a chain is active there is exactly one
/// `Current` pad and at most one `NextTarget`; captures may end the
/// chain, so at most one of each is the stable form.
pub open spec fn chain_wf(wps: Seq<Waypoint>) -> bool {
    at_most_one_role(wps, Role::Current) && at_most_one_role(wps, Role::NextTarget)
}

/// The squared straight-line distance between two pixel positions.
pub open spec fn spec_dist2(x1: int, y1: int, x2: int, y2: int) -> int {
    (x2 - x1) * (x2 - x1) + (y2 - y1) * (y2 - y1)
}

/// The waypoints after one motion step, and whether the actor arrived.
///
/// With no `Current`/`NextTarget` pair the step is a no-op and the
/// request is not served. On arrival (distance within one step) the
/// `Current` pad snaps onto the target exactly and becomes `Visited`,
/// the target becomes `Current`, and the slot after it is promoted from
/// `Queued` to `NextTarget` if it is queued. Otherwise the `Current` pad
/// advances by the speed along the direction to the target, each axis
/// rounded down.
pub open spec fn spec_move_player(wps: Seq<Waypoint>, speed: u32) -> (Seq<Waypoint>, bool) {
    match (find_role(wps, Role::Current), find_role(wps, Role::NextTarget)) {
        (Some(ci), Some(ti)) => {
            let cur = wps[ci];
            let tgt = wps[ti];
            let dist = isqrt(spec_dist2(cur.x as int, cur.y as int, tgt.x as int, tgt.y as int));
            if dist <= speed {
                let w1 = wps.update(ci, Waypoint { x: tgt.x, y: tgt.y, role: Role::Visited });
                let w2 = w1.update(ti, Waypoint { x: tgt.x, y: tgt.y, role: Role::Current });
                let ni = (ti + 1) % (wps.len() as int);
                let w3 = if w2[ni].role == Role::Queued {
                    w2.update(ni, Waypoint { x: w2[ni].x, y: w2[ni].y, role: Role::NextTarget })
                } else {
                    w2
                };
                (w3, true)
            } else {
                let adx = if tgt.x >= cur.x { tgt.x - cur.x } else { cur.x - tgt.x };
                let ady = if tgt.y >= cur.y { tgt.y - cur.y } else { cur.y - tgt.y };
                let sx = adx * speed / dist;
                let sy = ady * speed / dist;
                let nx = if tgt.x >= cur.x { cur.x + sx } else { cur.x - sx };
                let ny = if tgt.y >= cur.y { cur.y + sy } else { cur.y - sy };
                (
                    wps.update(ci, Waypoint { x: nx as u32, y: ny as u32, role: cur.role }),
                    false,
                )
            }
        },
        _ => (wps, false),
    }
}

/// A step of size `s <= d` along an axis with offset `a` never moves
/// past the offset itself.
proof fn lemma_axis_step_bound(a: int, s: int, d: int)
    requires
        0 <= a,
        0 <= s,
        s < d,
    ensures
        0 <= a * s / d <= a,
{
    lemma_fundamental_div_mod(a * s, d);
    assert(0 <= a * s / d <= a) by (nonlinear_arith)
        requires
            0 <= a,
            0 <= s,
            s < d,
            a * s == d * (a * s / d) + (a * s) % d,
            0 <= (a * s) % d < d;
}

/// One motion step of the actor along the chain.
///
/// The result equals [`spec_move_player`] on the previous state; the
/// returned flag says whether the actor arrived (serving the request).
/// In particular, when a `Current`/`NextTarget` pair exists and the
/// distance to the target is at most `speed`, the moved pad lands on the
/// target's position exactly; and without such a pair nothing changes.
pub fn move_player(wps: &mut Vec<Waypoint>, speed: u32) -> (arrived: bool)
    requires
        speed <= 0xffff,
        forall|k: int|
            0 <= k < old(wps)@.len() ==> old(wps)@[k].x <= 0xffff && old(wps)@[k].y <= 0xffff,
    ensures
        final(wps)@ == spec_move_player(old(wps)@, speed).0,
        arrived == spec_move_player(old(wps)@, speed).1,
        find_role(old(wps)@, Role::NextTarget) is None || find_role(old(wps)@, Role::Current)
            is None ==> final(wps)@ == old(wps)@ && !arrived,
{
    let co = find_role_index(wps, Role::Current);
    let to = find_role_index(wps, Role::NextTarget);
    let (ci, ti) = match (co, to) {
        (Some(a), Some(b)) => (a, b),
        _ => {
            return false;
        },
    };
    let cur = wps[ci];
    let tgt = wps[ti];
    let adx: u32 = if tgt.x >= cur.x {
        tgt.x - cur.x
    } else {
        cur.x - tgt.x
    };
    let ady: u32 = if tgt.y >= cur.y {
        tgt.y - cur.y
    } else {
        cur.y - tgt.y
    };
    proof {
        let dxi = tgt.x as int - cur.x as int;
        let dyi = tgt.y as int - cur.y as int;
        assert(dxi * dxi == (adx as int) * (adx as int)) by (nonlinear_arith)
            requires
                adx as int == dxi || adx as int == -dxi;
        assert(dyi * dyi == (ady as int) * (ady as int)) by (nonlinear_arith)
            requires
                ady as int == dyi || ady as int == -dyi;
        assert((adx as int) * (adx as int) + (ady as int) * (ady as int) <= 0xffff * 0xffff
            + 0xffff * 0xffff) by (nonlinear_arith)
            requires
                0 <= adx as int <= 0xffff,
                0 <= ady as int <= 0xffff;
    }
    let d2: u64 = (adx as u64) * (adx as u64) + (ady as u64) * (ady as u64);
    let dist = sqrt_approx(d2);
    if dist <= speed as u64 {
        wps.set(ci, Waypoint { x: tgt.x, y: tgt.y, role: Role::Visited });
        wps.set(ti, Waypoint { x: tgt.x, y: tgt.y, role: Role::Current });
        let n = wps.len();
        assert(ti < n);
        let ni = (ti + 1) % n;
        let next = wps[ni];
        if next.role == Role::Queued {
            wps.set(ni, Waypoint { x: next.x, y: next.y, role: Role::NextTarget });
        }
        true
    } else {
        proof {
            lemma_axis_step_bound(adx as int, speed as int, dist as int);
            lemma_axis_step_bound(ady as int, speed as int, dist as int);
            assert((adx as u64) * (speed as u64) <= 0xffff * 0xffff) by (nonlinear_arith)
                requires
                    adx as int <= 0xffff,
                    speed as int <= 0xffff,
                    0 <= adx as int,
                    0 <= speed as int;
            assert((ady as u64) * (speed as u64) <= 0xffff * 0xffff) by (nonlinear_arith)
                requires
                    ady as int <= 0xffff,
                    speed as int <= 0xffff,
                    0 <= ady as int,
                    0 <= speed as int;
        }
        let sx = ((adx as u64) * (speed as u64) / dist) as u32;
        let sy = ((ady as u64) * (speed as u64) / dist) as u32;
        let nx = if tgt.x >= cur.x {
            cur.x + sx
        } else {
            cur.x - sx
        };
        let ny = if tgt.y >= cur.y {
            cur.y + sy
        } else {
            cur.y - sy
        };
        wps.set(ci, Waypoint { x: nx, y: ny, role: cur.role });
        false
    }
}

/// A motion step keeps every pad inside the playfield: the travelling
/// pad only moves between its own position and the target's.
pub proof fn lemma_move_player_bounds(wps: Seq<Waypoint>, speed: u32, width: u32, height: u32, size: u32)
    requires
        speed <= 0xffff,
        forall|k: int|
            0 <= k < wps.len() ==> (#[trigger] wps[k]).x + size <= width && wps[k].y + size
                <= height,
        width <= 0xffff,
        height <= 0xffff,
    ensures
        spec_move_player(wps, speed).0.len() == wps.len(),
        forall|k: int|
            0 <= k < wps.len() ==> (#[trigger] spec_move_player(wps, speed).0[k]).x + size <= width
                && spec_move_player(wps, speed).0[k].y + size <= height,
{
    match (find_role(wps, Role::Current), find_role(wps, Role::NextTarget)) {
        (Some(ci), Some(ti)) => {
            lemma_find_role_from(wps, Role::Current, 0);
            lemma_find_role_from(wps, Role::NextTarget, 0);
            let cur = wps[ci];
            let tgt = wps[ti];
            let dist = isqrt(spec_dist2(cur.x as int, cur.y as int, tgt.x as int, tgt.y as int));
            if dist <= speed {
            } else {
                let adx = if tgt.x >= cur.x { tgt.x - cur.x } else { cur.x - tgt.x };
                let ady = if tgt.y >= cur.y { tgt.y - cur.y } else { cur.y - tgt.y };
                lemma_axis_step_bound(adx as int, speed as int, dist as int);
                lemma_axis_step_bound(ady as int, speed as int, dist as int);
            }
        },
        _ => {},
    }
}

/// A motion step never changes the number of chain slots.
pub proof fn lemma_move_player_len(wps: Seq<Waypoint>, speed: u32)
    ensures
        spec_move_player(wps, speed).0.len() == wps.len(),
{
    match (find_role(wps, Role::Current), find_role(wps, Role::NextTarget)) {
        (Some(ci), Some(ti)) => {
            lemma_find_role_from(wps, Role::Current, 0);
            lemma_find_role_from(wps, Role::NextTarget, 0);
            lemma_mod_division_less_than_divisor(ti + 1, wps.len() as int);
        },
        _ => {},
    }
}

/// Chain monotonicity within one motion step: a pad that has reached
/// `Visited` never returns to another role. Arrival turns the pad that
/// was `Current` into `Visited`, promotes the pad that was `NextTarget`,
/// and promotes a pad that was `Queued`; none of them was `Visited`.
pub proof fn lemma_move_player_visited(wps: Seq<Waypoint>, speed: u32)
    ensures
        forall|k: int|
            0 <= k < wps.len() && (#[trigger] wps[k]).role == Role::Visited ==> spec_move_player(
                wps,
                speed,
            ).0[k].role == Role::Visited,
{
    match (find_role(wps, Role::Current), find_role(wps, Role::NextTarget)) {
        (Some(ci), Some(ti)) => {
            lemma_find_role_from(wps, Role::Current, 0);
            lemma_find_role_from(wps, Role::NextTarget, 0);
        },
        _ => {},
    }
}

/// Arrival snap: when a `Current`/`NextTarget` pair exists and the
/// distance to the target is at most the speed, the travelling pad's
/// next position equals the target's position exactly — there is no
/// overshoot residue — the pad becomes `Visited`, and the move request
/// counts as served.
pub proof fn lemma_arrival_snap(wps: Seq<Waypoint>, speed: u32)
    requires
        find_role(wps, Role::Current) is Some,
        find_role(wps, Role::NextTarget) is Some,
        ({
            let ci = find_role(wps, Role::Current)->Some_0;
            let ti = find_role(wps, Role::NextTarget)->Some_0;
            isqrt(spec_dist2(wps[ci].x as int, wps[ci].y as int, wps[ti].x as int, wps[ti].y as int))
                <= speed
        }),
    ensures
        ({
            let ci = find_role(wps, Role::Current)->Some_0;
            let ti = find_role(wps, Role::NextTarget)->Some_0;
            let stepped = spec_move_player(wps, speed);
            &&& stepped.1
            &&& stepped.0[ci].x == wps[ti].x
            &&& stepped.0[ci].y == wps[ti].y
            &&& stepped.0[ci].role == Role::Visited
        }),
{
    let ci = find_role(wps, Role::Current)->Some_0;
    let ti = find_role(wps, Role::NextTarget)->Some_0;
    lemma_find_role_from(wps, Role::Current, 0);
    lemma_find_role_from(wps, Role::NextTarget, 0);
    lemma_mod_division_less_than_divisor(ti + 1, wps.len() as int);
    let ni = (ti + 1) % (wps.len() as int);
    // The pad that was `Current` is never promoted again: if the slot
    // after the target wraps onto it, that slot is already `Visited`.
    assert(ci != ti);
    if ni == ci {
        assert(spec_move_player(wps, speed).0[ci].role == Role::Visited);
    }
}

/// A motion step keeps the chain invariant: arrival moves the single
/// `Current` onto the single `NextTarget` slot and promotes at most one
/// queued pad.
pub proof fn lemma_move_player_chain_wf(wps: Seq<Waypoint>, speed: u32)
    requires
        chain_wf(wps),
    ensures
        chain_wf(spec_move_player(wps, speed).0),
{
    match (find_role(wps, Role::Current), find_role(wps, Role::NextTarget)) {
        (Some(ci), Some(ti)) => {
            lemma_find_role_from(wps, Role::Current, 0);
            lemma_find_role_from(wps, Role::NextTarget, 0);
            lemma_mod_division_less_than_divisor(ti + 1, wps.len() as int);
        },
        _ => {},
    }
}

} // verus!

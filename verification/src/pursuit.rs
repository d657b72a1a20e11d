//! Pursuer population: a fixed pool of seekers that close in on the
//! actor one pixel per axis per eligible tick, each gated by a wait
//! counter redrawn from the generator, and spawned on a playfield edge.

use vstd::prelude::*;

verus! {

use crate::entities::PURSUER_HEIGHT;
use crate::entities::PURSUER_WIDTH;
use crate::entities::Pursuer;
use crate::rng::Rng;
use crate::rng::rng_in_range;
use crate::rng::rng_next;

/// One Manhattan step of one coordinate towards a target coordinate.
pub open spec fn spec_seek_step(p: u32, target: u32) -> u32 {
    if p > target {
        (p - 1) as u32
    } else if p < target {
        (p + 1) as u32
    } else {
        p
    }
}

/// One pursuer slot updated for one tick, with the generator state it
/// leaves behind. A free slot is untouched. A waiting pursuer only
/// counts down. An eligible pursuer steps one pixel per axis towards
/// the actor (if there is one) and redraws its wait from `[1, 8]`.
pub open spec fn spec_step_pursuer(p: Pursuer, actor: Option<(u32, u32)>, s: u32) -> (
    Pursuer,
    u32,
) {
    if !p.alive {
        (p, s)
    } else if p.wait > 0 {
        (Pursuer { wait: (p.wait - 1) as u32, ..p }, s)
    } else {
        let moved = match actor {
            Some(a) => Pursuer { x: spec_seek_step(p.x, a.0), y: spec_seek_step(p.y, a.1), ..p },
            None => p,
        };
        (Pursuer { wait: rng_in_range(s, 1, 8), ..moved }, rng_next(s))
    }
}

/// The pool after updating every slot from `i` on, in slot order, and
/// the final generator state.
pub open spec fn spec_move_pursuers_from(
    ps: Seq<Pursuer>,
    actor: Option<(u32, u32)>,
    s: u32,
    i: int,
) -> (Seq<Pursuer>, u32)
    decreases ps.len() - i,
{
    if i < 0 || i >= ps.len() {
        (ps, s)
    } else {
        let stepped = spec_step_pursuer(ps[i], actor, s);
        spec_move_pursuers_from(ps.update(i, stepped.0), actor, stepped.1, i + 1)
    }
}

/// The whole pool after one tick of pursuit.
pub open spec fn spec_move_pursuers(ps: Seq<Pursuer>, actor: Option<(u32, u32)>, s: u32) -> (
    Seq<Pursuer>,
    u32,
) {
    spec_move_pursuers_from(ps, actor, s, 0)
}

/// Advance every pursuer one tick towards the actor's position.
pub fn move_pursuers(ps: &mut Vec<Pursuer>, rng: &mut Rng, actor: Option<(u32, u32)>)
    ensures
        final(ps)@ == spec_move_pursuers(old(ps)@, actor, old(rng).state).0,
        final(rng).state == spec_move_pursuers(old(ps)@, actor, old(rng).state).1,
{
    let ghost target = spec_move_pursuers(ps@, actor, rng.state);
    let n = ps.len();
    let mut i: usize = 0;
    while i < n
        invariant
            i <= n,
            n == ps@.len(),
            target == spec_move_pursuers_from(ps@, actor, rng.state, i as int),
        decreases n - i,
    {
        let ghost ps0 = ps@;
        let ghost s0 = rng.state;
        let p = ps[i];
        if p.alive {
            if p.wait > 0 {
                ps.set(i, Pursuer { wait: p.wait - 1, ..p });
            } else {
                let mut np = p;
                if let Some((ax, ay)) = actor {
                    np.x = if np.x > ax {
                        np.x - 1
                    } else if np.x < ax {
                        np.x + 1
                    } else {
                        np.x
                    };
                    np.y = if np.y > ay {
                        np.y - 1
                    } else if np.y < ay {
                        np.y + 1
                    } else {
                        np.y
                    };
                }
                np.wait = rng.rand_in_range(1, 8);
                ps.set(i, np);
            }
        }
        proof {
            let stepped = spec_step_pursuer(ps0[i as int], actor, s0);
            assert(ps@ =~= ps0.update(i as int, stepped.0));
            assert(rng.state == stepped.1);
        }
        i = i + 1;
    }
}

/// One freshly spawned pursuer and the generator state after drawing
/// it: an edge is chosen by one draw modulo four (top, right, bottom,
/// left in that order), the coordinate along that edge uniformly, and
/// the initial wait from `[1, 8]`.
pub open spec fn spec_spawn_pursuer(s: u32, width: u32, height: u32) -> (Pursuer, u32)
    recommends
        PURSUER_WIDTH <= width,
        PURSUER_HEIGHT <= height,
{
    let edge = rng_next(s) % 4;
    let s1 = rng_next(s);
    let xw = (width - PURSUER_WIDTH) as u32;
    let yh = (height - PURSUER_HEIGHT) as u32;
    let x = if edge == 0 {
        rng_in_range(s1, 0, xw)
    } else if edge == 1 {
        xw
    } else if edge == 2 {
        rng_in_range(s1, 0, xw)
    } else {
        0u32
    };
    let y = if edge == 0 {
        0u32
    } else if edge == 1 {
        rng_in_range(s1, 0, yh)
    } else if edge == 2 {
        yh
    } else {
        rng_in_range(s1, 0, yh)
    };
    let s2 = rng_next(s1);
    let wait = rng_in_range(s2, 1, 8);
    let s3 = rng_next(s2);
    (Pursuer { x, y, alive: true, wait }, s3)
}

/// The pool after refilling every slot from `i` on with a fresh
/// pursuer, and the final generator state.
pub open spec fn spec_spawn_pursuers_from(
    ps: Seq<Pursuer>,
    s: u32,
    width: u32,
    height: u32,
    i: int,
) -> (Seq<Pursuer>, u32)
    decreases ps.len() - i,
{
    if i < 0 || i >= ps.len() {
        (ps, s)
    } else {
        let spawned = spec_spawn_pursuer(s, width, height);
        spec_spawn_pursuers_from(ps.update(i, spawned.0), spawned.1, width, height, i + 1)
    }
}

/// The whole pool refilled at the start of an episode.
pub open spec fn spec_spawn_pursuers(ps: Seq<Pursuer>, s: u32, width: u32, height: u32) -> (
    Seq<Pursuer>,
    u32,
) {
    spec_spawn_pursuers_from(ps, s, width, height, 0)
}

/// Fill every pursuer slot with a fresh pursuer on a playfield edge.
pub fn spawn_pursuers(ps: &mut Vec<Pursuer>, rng: &mut Rng, width: u32, height: u32)
    requires
        PURSUER_WIDTH <= width,
        PURSUER_HEIGHT <= height,
    ensures
        final(ps)@ == spec_spawn_pursuers(old(ps)@, old(rng).state, width, height).0,
        final(rng).state == spec_spawn_pursuers(old(ps)@, old(rng).state, width, height).1,
{
    let ghost target = spec_spawn_pursuers(ps@, rng.state, width, height);
    let n = ps.len();
    let mut i: usize = 0;
    while i < n
        invariant
            i <= n,
            n == ps@.len(),
            PURSUER_WIDTH <= width,
            PURSUER_HEIGHT <= height,
            target == spec_spawn_pursuers_from(ps@, rng.state, width, height, i as int),
        decreases n - i,
    {
        let edge = rng.next() % 4;
        let xw = width - PURSUER_WIDTH;
        let yh = height - PURSUER_HEIGHT;
        let (x, y) = if edge == 0 {
            (rng.rand_in_range(0, xw), 0)
        } else if edge == 1 {
            (xw, rng.rand_in_range(0, yh))
        } else if edge == 2 {
            (rng.rand_in_range(0, xw), yh)
        } else {
            (0, rng.rand_in_range(0, yh))
        };
        let wait = rng.rand_in_range(1, 8);
        ps.set(i, Pursuer { x, y, alive: true, wait });
        i = i + 1;
    }
}

/// Pursuit never leaves the playfield: a pursuer inside the bounds that
/// steps towards an actor inside the bounds stays inside them.
pub proof fn lemma_move_pursuers_bounds(
    ps: Seq<Pursuer>,
    actor: Option<(u32, u32)>,
    s: u32,
    i: int,
    width: u32,
    height: u32,
)
    requires
        forall|k: int| 0 <= k < ps.len() ==> ps[k].x <= width && ps[k].y <= height,
        actor matches Some(a) ==> a.0 <= width && a.1 <= height,
    ensures
        spec_move_pursuers_from(ps, actor, s, i).0.len() == ps.len(),
        forall|k: int|
            0 <= k < ps.len() ==> #[trigger] spec_move_pursuers_from(ps, actor, s, i).0[k].x
                <= width && spec_move_pursuers_from(ps, actor, s, i).0[k].y <= height,
    decreases ps.len() - i,
{
    if 0 <= i < ps.len() {
        let stepped = spec_step_pursuer(ps[i], actor, s);
        lemma_move_pursuers_bounds(ps.update(i, stepped.0), actor, stepped.1, i + 1, width, height);
    }
}

/// Spawning puts every pursuer on the playfield boundary, inside the
/// bounds.
pub proof fn lemma_spawn_pursuers_bounds(
    ps: Seq<Pursuer>,
    s: u32,
    width: u32,
    height: u32,
    i: int,
)
    requires
        PURSUER_WIDTH <= width,
        PURSUER_HEIGHT <= height,
        forall|k: int| 0 <= k < ps.len() ==> ps[k].x <= width && ps[k].y <= height,
    ensures
        spec_spawn_pursuers_from(ps, s, width, height, i).0.len() == ps.len(),
        forall|k: int|
            0 <= k < ps.len() ==> #[trigger] spec_spawn_pursuers_from(ps, s, width, height, i).0[k].x
                <= width && spec_spawn_pursuers_from(ps, s, width, height, i).0[k].y <= height,
    decreases ps.len() - i,
{
    if 0 <= i < ps.len() {
        let spawned = spec_spawn_pursuer(s, width, height);
        crate::rng::lemma_rng_in_range_bounds(rng_next(s), 0, (width - PURSUER_WIDTH) as u32);
        crate::rng::lemma_rng_in_range_bounds(rng_next(s), 0, (height - PURSUER_HEIGHT) as u32);
        lemma_spawn_pursuers_bounds(
            ps.update(i, spawned.0),
            spawned.1,
            width,
            height,
            i + 1,
        );
    }
}

} // verus!

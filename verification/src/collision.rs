//! Collision resolver: exhaustive axis-aligned box tests between live
//! pursuers and the pad the actor occupies. A caught pad is captured:
//! its role drops to `Inactive` and it leaves the chain.

use vstd::prelude::*;

verus! {

use crate::entities::PURSUER_HEIGHT;
use crate::entities::PURSUER_WIDTH;
use crate::entities::Pursuer;
use crate::entities::Role;
use crate::entities::Waypoint;
use crate::geom::Rect;
use crate::geom::aabb_overlap;
use crate::geom::spec_aabb_overlap;

/// The pixel footprint of a waypoint pad.
pub open spec fn spec_waypoint_rect(wp: Waypoint, size: u32) -> Rect {
    Rect { x: wp.x, y: wp.y, w: size, h: size }
}

/// The pixel footprint of a pursuer.
pub open spec fn spec_pursuer_rect(p: Pursuer) -> Rect {
    Rect { x: p.x, y: p.y, w: PURSUER_WIDTH, h: PURSUER_HEIGHT }
}

/// Some live pursuer overlaps the pad's footprint.
pub open spec fn spec_hit_by_pursuer(wp: Waypoint, ps: Seq<Pursuer>, size: u32) -> bool {
    exists|k: int|
        0 <= k < ps.len() && (#[trigger] ps[k]).alive && spec_aabb_overlap(
            spec_waypoint_rect(wp, size),
            spec_pursuer_rect(ps[k]),
        )
}

/// The waypoints after one collision pass: a pad whose role marks it as
/// the actor's pad (`Current`) and that a live pursuer overlaps is
/// captured; every other pad is untouched.
pub open spec fn spec_check_collision(wps: Seq<Waypoint>, ps: Seq<Pursuer>, size: u32) -> Seq<
    Waypoint,
> {
    Seq::new(
        wps.len(),
        |i: int|
            if wps[i].role == Role::Current && spec_hit_by_pursuer(wps[i], ps, size) {
                Waypoint { role: Role::Inactive, ..wps[i] }
            } else {
                wps[i]
            },
    )
}

/// Test whether any live pursuer overlaps the pad.
fn pursuer_hits(wp: Waypoint, ps: &Vec<Pursuer>, size: u32) -> (r: bool)
    requires
        wp.x + size <= u32::MAX,
        wp.y + size <= u32::MAX,
        forall|k: int|
            0 <= k < ps@.len() ==> (#[trigger] ps@[k]).x + PURSUER_WIDTH <= u32::MAX && ps@[k].y
                + PURSUER_HEIGHT <= u32::MAX,
    ensures
        r == spec_hit_by_pursuer(wp, ps@, size),
{
    let n = ps.len();
    let mut i: usize = 0;
    while i < n
        invariant
            i <= n,
            n == ps@.len(),
            wp.x + size <= u32::MAX,
            wp.y + size <= u32::MAX,
            forall|k: int|
                0 <= k < ps@.len() ==> (#[trigger] ps@[k]).x + PURSUER_WIDTH <= u32::MAX && ps@[k].y
                    + PURSUER_HEIGHT <= u32::MAX,
            forall|k: int|
                0 <= k < i ==> !((#[trigger] ps@[k]).alive && spec_aabb_overlap(
                    spec_waypoint_rect(wp, size),
                    spec_pursuer_rect(ps@[k]),
                )),
        decreases n - i,
    {
        let p = ps[i];
        if p.alive {
            let wrect = Rect { x: wp.x, y: wp.y, w: size, h: size };
            let prect = Rect { x: p.x, y: p.y, w: PURSUER_WIDTH, h: PURSUER_HEIGHT };
            if aabb_overlap(wrect, prect) {
                return true;
            }
        }
        i = i + 1;
    }
    false
}

/// One collision pass: capture the actor's pad if a live pursuer
/// touches it. Only pads whose role is `Current` are tested, so future
/// chain links are never disabled prematurely.
pub fn check_collision(wps: &mut Vec<Waypoint>, ps: &Vec<Pursuer>, size: u32)
    requires
        forall|k: int|
            0 <= k < old(wps)@.len() ==> (#[trigger] old(wps)@[k]).x + size <= u32::MAX && old(
                wps,
            )@[k].y + size <= u32::MAX,
        forall|k: int|
            0 <= k < ps@.len() ==> (#[trigger] ps@[k]).x + PURSUER_WIDTH <= u32::MAX && ps@[k].y
                + PURSUER_HEIGHT <= u32::MAX,
    ensures
        final(wps)@ == spec_check_collision(old(wps)@, ps@, size),
{
    let ghost wps0 = wps@;
    let n = wps.len();
    let mut i: usize = 0;
    while i < n
        invariant
            i <= n,
            n == wps@.len(),
            wps@.len() == wps0.len(),
            forall|k: int|
                0 <= k < wps0.len() ==> (#[trigger] wps0[k]).x + size <= u32::MAX && wps0[k].y
                    + size <= u32::MAX,
            forall|k: int|
                0 <= k < ps@.len() ==> (#[trigger] ps@[k]).x + PURSUER_WIDTH <= u32::MAX && ps@[k].y
                    + PURSUER_HEIGHT <= u32::MAX,
            forall|j: int| i <= j < wps0.len() ==> wps@[j] == wps0[j],
            forall|j: int| 0 <= j < i ==> wps@[j] == spec_check_collision(wps0, ps@, size)[j],
        decreases n - i,
    {
        let wp = wps[i];
        proof {
            assert(wp == wps0[i as int]);
            assert(wps0[i as int].x + size <= u32::MAX && wps0[i as int].y + size <= u32::MAX);
        }
        if wp.role == Role::Current {
            if pursuer_hits(wp, ps, size) {
                wps.set(i, Waypoint { x: wp.x, y: wp.y, role: Role::Inactive });
            }
        }
        i = i + 1;
    }
    proof {
        assert(wps@ =~= spec_check_collision(wps0, ps@, size));
    }
}

/// A collision pass keeps the chain invariant: it can only retire a
/// `Current` pad, never mint a new `Current` or `NextTarget`.
pub proof fn lemma_check_collision_chain_wf(wps: Seq<Waypoint>, ps: Seq<Pursuer>, size: u32)
    requires
        crate::motion::chain_wf(wps),
    ensures
        crate::motion::chain_wf(spec_check_collision(wps, ps, size)),
{
}

} // verus!

//! Frame renderer: flat-color filled rectangles rasterized into a
//! row-major pixel buffer, back to front by role priority.
//!
//! A rectangle write clips by linear index: a pixel whose row-major
//! index falls outside the buffer is skipped, nothing else is.

use vstd::prelude::*;

verus! {

use crate::entities::PURSUER_COLOR;
use crate::entities::PURSUER_HEIGHT;
use crate::entities::PURSUER_WIDTH;
use crate::entities::Pursuer;
use crate::entities::Role;
use crate::entities::Waypoint;
use crate::entities::role_color;
use crate::entities::spec_role_color;

/// Row-major index of the rectangle pixel `(a, b)`: row `y + a`,
/// column `x + b`.
pub open spec fn pixel_index(width: int, x: int, y: int, a: int, b: int) -> int {
    (y + a) * width + (x + b)
}

/// Linear index `i` is written by a `w x h` rectangle at `(x, y)` on a
/// buffer of row length `width`.
pub open spec fn rect_covers(width: int, x: int, y: int, w: int, h: int, i: int) -> bool {
    exists|a: int, b: int|
        0 <= a < h && 0 <= b < w && i == #[trigger] pixel_index(width, x, y, a, b)
}

/// The buffer after a clipped rectangle fill: covered indices take the
/// color, all others keep their value.
pub open spec fn spec_fill_rect(
    frame: Seq<u32>,
    width: int,
    x: int,
    y: int,
    w: int,
    h: int,
    color: u32,
) -> Seq<u32> {
    Seq::new(
        frame.len(),
        |i: int|
            if rect_covers(width, x, y, w, h, i) {
                color
            } else {
                frame[i]
            },
    )
}

/// Linear index `i` is written by the rectangle pixels that precede row
/// `a0`, or column `b0` within row `a0`, in drawing order.
spec fn covers_upto(width: int, x: int, y: int, w: int, a0: int, b0: int, i: int) -> bool {
    exists|a: int, b: int|
        0 <= a && 0 <= b < w && (a < a0 || (a == a0 && b < b0)) && i == #[trigger] pixel_index(
            width,
            x,
            y,
            a,
            b,
        )
}

/// The buffer after the rectangle pixels drawn before `(a0, b0)`.
spec fn fill_upto(
    frame: Seq<u32>,
    width: int,
    x: int,
    y: int,
    w: int,
    a0: int,
    b0: int,
    color: u32,
) -> Seq<u32> {
    Seq::new(
        frame.len(),
        |i: int|
            if covers_upto(width, x, y, w, a0, b0, i) {
                color
            } else {
                frame[i]
            },
    )
}

/// Fill a `w x h` rectangle at `(x, y)` with `color`, skipping pixels
/// whose linear index would fall outside the buffer.
pub fn fill_rect(frame: &mut Vec<u32>, width: usize, x: u32, y: u32, w: u32, h: u32, color: u32)
    requires
        width <= 0x10000,
        x + w <= 0x10000,
        y + h <= 0x10000,
    ensures
        final(frame)@ == spec_fill_rect(
            old(frame)@,
            width as int,
            x as int,
            y as int,
            w as int,
            h as int,
            color,
        ),
{
    let ghost f0 = frame@;
    let len = frame.len();
    let mut a: u32 = 0;
    while a < h
        invariant
            a <= h,
            width <= 0x10000,
            x + w <= 0x10000,
            y + h <= 0x10000,
            len == frame@.len(),
            f0.len() == len,
            frame@ == fill_upto(f0, width as int, x as int, y as int, w as int, a as int, 0, color),
        decreases h - a,
    {
        let mut b: u32 = 0;
        while b < w
            invariant
                b <= w,
                a < h,
                width <= 0x10000,
                x + w <= 0x10000,
                y + h <= 0x10000,
                len == frame@.len(),
                f0.len() == len,
                frame@ == fill_upto(
                    f0,
                    width as int,
                    x as int,
                    y as int,
                    w as int,
                    a as int,
                    b as int,
                    color,
                ),
            decreases w - b,
        {
            proof {
                assert((y as int + a as int) * (width as int) <= 0xffff * 0x10000)
                    by (nonlinear_arith)
                    requires
                        0 <= y as int + a as int <= 0xffff,
                        0 <= width as int <= 0x10000;
            }
            let idx = (y as usize + a as usize) * width + (x as usize + b as usize);
            let ghost fprev = frame@;
            if idx < len {
                frame.set(idx, color);
            }
            proof {
                let wi = width as int;
                let xi = x as int;
                let yi = y as int;
                let wwi = w as int;
                let ai = a as int;
                let bi = b as int;
                let idxi = pixel_index(wi, xi, yi, ai, bi);
                assert forall|i: int| 0 <= i < f0.len() implies frame@[i] == fill_upto(
                    f0,
                    wi,
                    xi,
                    yi,
                    wwi,
                    ai,
                    bi + 1,
                    color,
                )[i] by {
                    if i == idxi {
                        // This very pixel was just drawn (or clipped away,
                        // in which case its index is not in the buffer).
                        assert(covers_upto(wi, xi, yi, wwi, ai, bi + 1, i));
                        assert(frame@[i] == color);
                    } else {
                        assert(frame@[i] == fprev[i]);
                        if covers_upto(wi, xi, yi, wwi, ai, bi + 1, i) {
                            let (a2, b2) = choose|a2: int, b2: int|
                                0 <= a2 && 0 <= b2 < wwi && (a2 < ai || (a2 == ai && b2 < bi + 1))
                                    && i == #[trigger] pixel_index(wi, xi, yi, a2, b2);
                            if a2 == ai && b2 == bi {
                                assert(i == idxi);
                            } else {
                                assert(a2 < ai || (a2 == ai && b2 < bi));
                                assert(covers_upto(wi, xi, yi, wwi, ai, bi, i));
                            }
                        } else {
                            assert(!covers_upto(wi, xi, yi, wwi, ai, bi, i));
                        }
                    }
                }
                assert(frame@ =~= fill_upto(f0, wi, xi, yi, wwi, ai, bi + 1, color));
            }
            b = b + 1;
        }
        proof {
            let wi = width as int;
            let xi = x as int;
            let yi = y as int;
            let wwi = w as int;
            let ai = a as int;
            // A completed row is the same set of pixels as the start of
            // the next row.
            assert forall|i: int| 0 <= i < f0.len() implies fill_upto(
                f0,
                wi,
                xi,
                yi,
                wwi,
                ai,
                wwi,
                color,
            )[i] == fill_upto(f0, wi, xi, yi, wwi, ai + 1, 0, color)[i] by {
                if covers_upto(wi, xi, yi, wwi, ai, wwi, i) {
                    assert(covers_upto(wi, xi, yi, wwi, ai + 1, 0, i));
                }
                if covers_upto(wi, xi, yi, wwi, ai + 1, 0, i) {
                    let (a2, b2) = choose|a2: int, b2: int|
                        0 <= a2 && 0 <= b2 < wwi && (a2 < ai + 1 || (a2 == ai + 1 && b2 < 0)) && i
                            == #[trigger] pixel_index(wi, xi, yi, a2, b2);
                    assert(a2 <= ai);
                    assert(covers_upto(wi, xi, yi, wwi, ai, wwi, i));
                }
            }
            assert(fill_upto(f0, wi, xi, yi, wwi, ai, wwi, color) =~= fill_upto(
                f0,
                wi,
                xi,
                yi,
                wwi,
                ai + 1,
                0,
                color,
            ));
        }
        a = a + 1;
    }
    proof {
        let wi = width as int;
        let xi = x as int;
        let yi = y as int;
        let wwi = w as int;
        let hi = h as int;
        // Every pixel of the rectangle has been drawn.
        assert forall|i: int| 0 <= i < f0.len() implies fill_upto(
            f0,
            wi,
            xi,
            yi,
            wwi,
            hi,
            0,
            color,
        )[i] == spec_fill_rect(f0, wi, xi, yi, wwi, hi, color)[i] by {
            if covers_upto(wi, xi, yi, wwi, hi, 0, i) {
                let (a2, b2) = choose|a2: int, b2: int|
                    0 <= a2 && 0 <= b2 < wwi && (a2 < hi || (a2 == hi && b2 < 0)) && i
                        == #[trigger] pixel_index(wi, xi, yi, a2, b2);
                assert(rect_covers(wi, xi, yi, wwi, hi, i));
            }
            if rect_covers(wi, xi, yi, wwi, hi, i) {
                let (a2, b2) = choose|a2: int, b2: int|
                    0 <= a2 < hi && 0 <= b2 < wwi && i == #[trigger] pixel_index(wi, xi, yi, a2, b2);
                assert(covers_upto(wi, xi, yi, wwi, hi, 0, i));
            }
        }
        assert(fill_upto(f0, wi, xi, yi, wwi, hi, 0, color) =~= spec_fill_rect(
            f0,
            wi,
            xi,
            yi,
            wwi,
            hi,
            color,
        ));
    }
}

/// The buffer cleared to the background value.
pub open spec fn spec_clear(len: nat) -> Seq<u32> {
    Seq::new(len, |i: int| 0u32)
}

/// Clear every pixel of the buffer to the background value.
pub fn clear_frame(frame: &mut Vec<u32>)
    ensures
        final(frame)@ == spec_clear(old(frame)@.len()),
{
    let len = frame.len();
    let mut i: usize = 0;
    while i < len
        invariant
            i <= len,
            len == frame@.len(),
            forall|j: int| 0 <= j < i ==> frame@[j] == 0u32,
        decreases len - i,
    {
        frame.set(i, 0);
        i = i + 1;
    }
    proof {
        assert(frame@ =~= spec_clear(old(frame)@.len()));
    }
}

/// The buffer after drawing, in slot order, every waypoint from slot `i`
/// on whose role is `role`, each as a `size x size` square in the role's
/// color.
pub open spec fn spec_draw_waypoints(
    frame: Seq<u32>,
    width: int,
    wps: Seq<Waypoint>,
    size: u32,
    role: Role,
    i: int,
) -> Seq<u32>
    decreases wps.len() - i,
{
    if i >= wps.len() {
        frame
    } else {
        let f = if wps[i].role == role {
            spec_fill_rect(
                frame,
                width,
                wps[i].x as int,
                wps[i].y as int,
                size as int,
                size as int,
                spec_role_color(role),
            )
        } else {
            frame
        };
        spec_draw_waypoints(f, width, wps, size, role, i + 1)
    }
}

/// Draw every waypoint of the given role, in slot order.
pub fn draw_waypoints(frame: &mut Vec<u32>, width: usize, wps: &Vec<Waypoint>, size: u32, role: Role)
    requires
        width <= 0x10000,
        forall|k: int|
            0 <= k < wps@.len() ==> wps@[k].x + size <= 0x10000 && wps@[k].y + size <= 0x10000,
    ensures
        final(frame)@ == spec_draw_waypoints(old(frame)@, width as int, wps@, size, role, 0),
        final(frame)@.len() == old(frame)@.len(),
{
    let ghost target = spec_draw_waypoints(frame@, width as int, wps@, size, role, 0);
    let ghost len0 = frame@.len();
    let n = wps.len();
    let mut i: usize = 0;
    while i < n
        invariant
            i <= n,
            n == wps@.len(),
            frame@.len() == len0,
            width <= 0x10000,
            forall|k: int|
                0 <= k < wps@.len() ==> wps@[k].x + size <= 0x10000 && wps@[k].y + size <= 0x10000,
            target == spec_draw_waypoints(frame@, width as int, wps@, size, role, i as int),
        decreases n - i,
    {
        let wp = wps[i];
        if wp.role == role {
            fill_rect(frame, width, wp.x, wp.y, size, size, role_color(role));
        }
        i = i + 1;
    }
}

/// The buffer after drawing, in slot order, every live pursuer from slot
/// `i` on, each as a fixed-size box in the pursuer color.
pub open spec fn spec_draw_pursuers(frame: Seq<u32>, width: int, ps: Seq<Pursuer>, i: int) -> Seq<
    u32,
>
    decreases ps.len() - i,
{
    if i >= ps.len() {
        frame
    } else {
        let f = if ps[i].alive {
            spec_fill_rect(
                frame,
                width,
                ps[i].x as int,
                ps[i].y as int,
                PURSUER_WIDTH as int,
                PURSUER_HEIGHT as int,
                PURSUER_COLOR,
            )
        } else {
            frame
        };
        spec_draw_pursuers(f, width, ps, i + 1)
    }
}

/// Draw every live pursuer, in slot order.
pub fn draw_pursuers(frame: &mut Vec<u32>, width: usize, ps: &Vec<Pursuer>)
    requires
        width <= 0x10000,
        forall|k: int|
            0 <= k < ps@.len() ==> ps@[k].x + PURSUER_WIDTH <= 0x10000 && ps@[k].y + PURSUER_HEIGHT
                <= 0x10000,
    ensures
        final(frame)@ == spec_draw_pursuers(old(frame)@, width as int, ps@, 0),
        final(frame)@.len() == old(frame)@.len(),
{
    let ghost target = spec_draw_pursuers(frame@, width as int, ps@, 0);
    let ghost len0 = frame@.len();
    let n = ps.len();
    let mut i: usize = 0;
    while i < n
        invariant
            i <= n,
            n == ps@.len(),
            frame@.len() == len0,
            width <= 0x10000,
            forall|k: int|
                0 <= k < ps@.len() ==> ps@[k].x + PURSUER_WIDTH <= 0x10000 && ps@[k].y
                    + PURSUER_HEIGHT <= 0x10000,
            target == spec_draw_pursuers(frame@, width as int, ps@, i as int),
        decreases n - i,
    {
        let p = ps[i];
        if p.alive {
            fill_rect(frame, width, p.x, p.y, PURSUER_WIDTH, PURSUER_HEIGHT, PURSUER_COLOR);
        }
        i = i + 1;
    }
}

/// The rendered frame: a cleared buffer, the waypoints drawn back to
/// front in the order visited, queued, next target, current, then every
/// live pursuer on top.
pub open spec fn spec_render(
    len: nat,
    width: int,
    wps: Seq<Waypoint>,
    ps: Seq<Pursuer>,
    size: u32,
) -> Seq<u32> {
    let f0 = spec_clear(len);
    let f1 = spec_draw_waypoints(f0, width, wps, size, Role::Visited, 0);
    let f2 = spec_draw_waypoints(f1, width, wps, size, Role::Queued, 0);
    let f3 = spec_draw_waypoints(f2, width, wps, size, Role::NextTarget, 0);
    let f4 = spec_draw_waypoints(f3, width, wps, size, Role::Current, 0);
    spec_draw_pursuers(f4, width, ps, 0)
}

/// Rasterize all live entities: clear the buffer, then draw filled
/// rectangles back to front so that a higher-priority pad is never
/// overdrawn by a lower-priority one sharing a cell, and pursuers are
/// drawn after all waypoints.
pub fn render_frame(
    frame: &mut Vec<u32>,
    width: usize,
    wps: &Vec<Waypoint>,
    ps: &Vec<Pursuer>,
    size: u32,
)
    requires
        width <= 0x10000,
        forall|k: int|
            0 <= k < wps@.len() ==> wps@[k].x + size <= 0x10000 && wps@[k].y + size <= 0x10000,
        forall|k: int|
            0 <= k < ps@.len() ==> ps@[k].x + PURSUER_WIDTH <= 0x10000 && ps@[k].y + PURSUER_HEIGHT
                <= 0x10000,
    ensures
        final(frame)@ == spec_render(old(frame)@.len(), width as int, wps@, ps@, size),
        final(frame)@.len() == old(frame)@.len(),
{
    clear_frame(frame);
    draw_waypoints(frame, width, wps, size, Role::Visited);
    draw_waypoints(frame, width, wps, size, Role::Queued);
    draw_waypoints(frame, width, wps, size, Role::NextTarget);
    draw_waypoints(frame, width, wps, size, Role::Current);
    draw_pursuers(frame, width, ps);
}

} // verus!

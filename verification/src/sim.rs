//! The simulation state and the per-tick entry point.
//!
//! All entities live in fixed-size pools owned by one `Sim` value; the
//! host drives it by setting the one-shot input flags and calling
//! [`Sim::tick`], then reads the pixel buffer. A tick is a pure
//! function of the previous state, which is what makes replays with the
//! same seed bit-identical.

use vstd::prelude::*;

verus! {

use crate::collision::spec_check_collision;
use crate::collision::check_collision;
use crate::entities::MAX_PURSUERS;
use crate::entities::MAX_WAYPOINTS;
use crate::entities::PURSUER_HEIGHT;
use crate::entities::PURSUER_WIDTH;
use crate::entities::Pursuer;
use crate::entities::Role;
use crate::entities::Waypoint;
use crate::collision::lemma_check_collision_chain_wf;
use crate::motion::chain_wf;
use crate::motion::find_role;
use crate::motion::lemma_move_player_chain_wf;
use crate::motion::find_role_index;
use crate::motion::lemma_find_role_from;
use crate::motion::lemma_move_player_bounds;
use crate::motion::lemma_move_player_visited;
use crate::motion::move_player;
use crate::motion::spec_move_player;
use crate::placement::lemma_spawn_chain_isolated;
use crate::placement::lemma_waypoints_of_cells_chain_wf;
use crate::placement::spawn_waypoints;
use crate::placement::spec_spawn_chain;
use crate::placement::spec_waypoints_of_cells;
use crate::pursuit::lemma_move_pursuers_bounds;
use crate::pursuit::lemma_spawn_pursuers_bounds;
use crate::pursuit::move_pursuers;
use crate::pursuit::spawn_pursuers;
use crate::pursuit::spec_move_pursuers;
use crate::pursuit::spec_spawn_pursuers;
use crate::render::clear_frame;
use crate::render::render_frame;
use crate::render::spec_clear;
use crate::render::spec_render;
use crate::rng::Rng;

/// The mathematical state of a simulation: every field of [`Sim`] as a
/// ghost value. Contracts and the tick model speak of this type.
#[verifier::ext_equal]
pub struct SimView {
    /// Playfield width in pixels.
    pub width: u32,
    /// Playfield height in pixels.
    pub height: u32,
    /// Edge length of a waypoint pad in pixels.
    pub waypoint_size: u32,
    /// Travel speed of the actor, in pixels per tick.
    pub waypoint_speed: u32,
    /// Generator state.
    pub rng: u32,
    /// Grid occupancy, row-major.
    pub grid: Seq<bool>,
    /// The waypoint chain slots.
    pub waypoints: Seq<Waypoint>,
    /// The pursuer slot pool.
    pub pursuers: Seq<Pursuer>,
    /// The pixel buffer, row-major, origin top-left.
    pub frame: Seq<u32>,
    /// One-shot travel request; stays set until the actor arrives.
    pub move_requested: bool,
    /// Reset request; cleared by the tick that services it.
    pub reset_requested: bool,
}

impl SimView {
    /// Grid width in cells.
    pub open spec fn grid_w(self) -> int {
        self.width as int / self.waypoint_size as int
    }

    /// Grid height in cells.
    pub open spec fn grid_h(self) -> int {
        self.height as int / self.waypoint_size as int
    }

    /// The configuration limits every episode relies on.
    pub open spec fn config_ok(self) -> bool {
        &&& 1 <= self.waypoint_size <= self.width
        &&& self.waypoint_size <= self.height
        &&& self.width <= 0xff00
        &&& self.height <= 0xff00
        &&& self.waypoint_speed <= 0xffff
        &&& PURSUER_WIDTH <= self.width
        &&& PURSUER_HEIGHT <= self.height
    }

    /// Well-formedness: pool sizes are fixed, the buffers match the
    /// configuration, and every entity lies inside the playfield.
    pub open spec fn wf(self) -> bool {
        &&& self.config_ok()
        &&& self.grid.len() == self.grid_w() * self.grid_h()
        &&& self.waypoints.len() == MAX_WAYPOINTS
        &&& self.pursuers.len() == MAX_PURSUERS
        &&& self.frame.len() == self.width * self.height
        &&& forall|k: int|
            0 <= k < self.waypoints.len() ==> (#[trigger] self.waypoints[k]).x + self.waypoint_size
                <= self.width && self.waypoints[k].y + self.waypoint_size <= self.height
        &&& forall|k: int|
            0 <= k < self.pursuers.len() ==> (#[trigger] self.pursuers[k]).x <= self.width
                && self.pursuers[k].y <= self.height
    }
}

/// The state a fresh simulation starts in: everything inactive, the
/// buffer dark, the generator holding the seed.
pub open spec fn spec_init(
    width: u32,
    height: u32,
    waypoint_size: u32,
    waypoint_speed: u32,
    seed: u32,
) -> SimView {
    SimView {
        width,
        height,
        waypoint_size,
        waypoint_speed,
        rng: seed,
        grid: Seq::new(
            ((width as int / waypoint_size as int) * (height as int / waypoint_size as int)) as nat,
            |i: int| false,
        ),
        waypoints: Seq::new(
            MAX_WAYPOINTS as nat,
            |i: int| Waypoint { x: 0, y: 0, role: Role::Inactive },
        ),
        pursuers: Seq::new(
            MAX_PURSUERS as nat,
            |i: int| Pursuer { x: 0, y: 0, alive: false, wait: 0 },
        ),
        frame: Seq::new((width * height) as nat, |i: int| 0u32),
        move_requested: false,
        reset_requested: false,
    }
}

/// The actor's position: where the `Current` pad is, if there is one.
pub open spec fn spec_actor(wps: Seq<Waypoint>) -> Option<(u32, u32)> {
    match find_role(wps, Role::Current) {
        Some(ci) => Some((wps[ci].x, wps[ci].y)),
        None => None,
    }
}

/// A tick that services a reset: the input flags are cleared, the
/// buffer stays dark, and the waypoint chain and the pursuer pool are
/// respawned from the generator.
pub open spec fn spec_reset_step(s: SimView) -> SimView {
    let chain = spec_spawn_chain(s.grid_w(), s.grid_h(), s.rng);
    let pp = spec_spawn_pursuers(s.pursuers, chain.2, s.width, s.height);
    SimView {
        grid: chain.1,
        waypoints: spec_waypoints_of_cells(chain.0, s.waypoint_size),
        pursuers: pp.0,
        rng: pp.1,
        frame: spec_clear(s.frame.len()),
        move_requested: false,
        reset_requested: false,
        ..s
    }
}

/// An ordinary tick: while a move is requested the actor travels (the
/// request is served on arrival), the pursuers close in on the actor,
/// collisions are resolved, and the frame is rendered.
pub open spec fn spec_frame_step(s: SimView) -> SimView {
    let moved = if s.move_requested {
        spec_move_player(s.waypoints, s.waypoint_speed)
    } else {
        (s.waypoints, false)
    };
    let move_left = s.move_requested && !moved.1;
    let chased = spec_move_pursuers(s.pursuers, spec_actor(moved.0), s.rng);
    let wps = spec_check_collision(moved.0, chased.0, s.waypoint_size);
    SimView {
        waypoints: wps,
        pursuers: chased.0,
        rng: chased.1,
        frame: spec_render(s.frame.len(), s.width as int, wps, chased.0, s.waypoint_size),
        move_requested: move_left,
        ..s
    }
}

/// One tick of the simulation as a function of the previous state.
pub open spec fn spec_tick(s: SimView) -> SimView {
    if s.reset_requested {
        spec_reset_step(s)
    } else {
        spec_frame_step(s)
    }
}

/// The simulation: one process-wide instance owns every entity pool
/// and the pixel buffer; a reset reinitializes it in place.
pub struct Sim {
    /// Playfield width in pixels.
    pub width: u32,
    /// Playfield height in pixels.
    pub height: u32,
    /// Edge length of a waypoint pad in pixels.
    pub waypoint_size: u32,
    /// Travel speed of the actor, in pixels per tick.
    pub waypoint_speed: u32,
    /// The deterministic generator.
    pub rng: Rng,
    /// Grid occupancy, row-major, one entry per cell.
    pub grid: Vec<bool>,
    /// The waypoint chain slots.
    pub waypoints: Vec<Waypoint>,
    /// The pursuer slot pool.
    pub pursuers: Vec<Pursuer>,
    /// The pixel buffer, row-major, origin top-left.
    pub frame: Vec<u32>,
    /// One-shot travel request; stays set until the actor arrives.
    pub move_requested: bool,
    /// Reset request; cleared by the tick that services it.
    pub reset_requested: bool,
}

impl View for Sim {
    type V = SimView;

    open spec fn view(&self) -> SimView {
        SimView {
            width: self.width,
            height: self.height,
            waypoint_size: self.waypoint_size,
            waypoint_speed: self.waypoint_speed,
            rng: self.rng.state,
            grid: self.grid@,
            waypoints: self.waypoints@,
            pursuers: self.pursuers@,
            frame: self.frame@,
            move_requested: self.move_requested,
            reset_requested: self.reset_requested,
        }
    }
}

/// A vector holding `n` copies of one value.
fn filled<T: Copy>(n: usize, value: T) -> (r: Vec<T>)
    ensures
        r@ == Seq::new(n as nat, |i: int| value),
{
    let mut v: Vec<T> = Vec::new();
    let mut i: usize = 0;
    while i < n
        invariant
            i <= n,
            v@.len() == i,
            forall|j: int| 0 <= j < i ==> v@[j] == value,
        decreases n - i,
    {
        v.push(value);
        i = i + 1;
    }
    proof {
        assert(v@ =~= Seq::new(n as nat, |i: int| value));
    }
    v
}

impl Sim {
    /// Build a fresh simulation for the given playfield, pad size,
    /// travel speed and seed. Nothing is spawned yet: the first tick
    /// after a reset request populates the episode.
    pub fn new(width: u32, height: u32, waypoint_size: u32, waypoint_speed: u32, seed: u32) -> (s:
        Sim)
        requires
            1 <= waypoint_size <= width,
            waypoint_size <= height,
            width <= 0xff00,
            height <= 0xff00,
            waypoint_speed <= 0xffff,
            PURSUER_WIDTH <= width,
            PURSUER_HEIGHT <= height,
        ensures
            s@ == spec_init(width, height, waypoint_size, waypoint_speed, seed),
            s@.wf(),
            chain_wf(s@.waypoints),
    {
        let gw = (width / waypoint_size) as usize;
        let gh = (height / waypoint_size) as usize;
        proof {
            assert((gw as int) * (gh as int) <= 0xff00 * 0xff00) by (nonlinear_arith)
                requires
                    0 <= gw as int <= 0xff00,
                    0 <= gh as int <= 0xff00;
            assert((width as int) * (height as int) <= 0xff00 * 0xff00) by (nonlinear_arith)
                requires
                    0 <= width as int <= 0xff00,
                    0 <= height as int <= 0xff00;
        }
        let grid = filled(gw * gh, false);
        let waypoints = filled(MAX_WAYPOINTS, Waypoint { x: 0, y: 0, role: Role::Inactive });
        let pursuers = filled(MAX_PURSUERS, Pursuer { x: 0, y: 0, alive: false, wait: 0 });
        let frame = filled((width as usize) * (height as usize), 0u32);
        let s = Sim {
            width,
            height,
            waypoint_size,
            waypoint_speed,
            rng: Rng::new(seed),
            grid,
            waypoints,
            pursuers,
            frame,
            move_requested: false,
            reset_requested: false,
        };
        proof {
            assert(s@ =~= spec_init(width, height, waypoint_size, waypoint_speed, seed));
        }
        s
    }

    /// The host decoded a travel intent: request a move. The request
    /// stays pending until the actor arrives at its target.
    pub fn set_move_request(&mut self)
        ensures
            final(self)@ == (SimView { move_requested: true, ..old(self)@ }),
    {
        self.move_requested = true;
        proof {
            assert(self@ =~= (SimView { move_requested: true, ..old(self)@ }));
        }
    }

    /// Request a reset: the next tick respawns the episode and clears
    /// the flag.
    pub fn set_reset(&mut self)
        ensures
            final(self)@ == (SimView { reset_requested: true, ..old(self)@ }),
    {
        self.reset_requested = true;
        proof {
            assert(self@ =~= (SimView { reset_requested: true, ..old(self)@ }));
        }
    }
}

impl Sim {
    /// One tick of the simulation.
    ///
    /// A pending reset is serviced first: the flags are cleared and the
    /// episode is respawned, with the buffer left dark. Otherwise the
    /// actor travels while a move is requested, the pursuers advance,
    /// collisions are resolved and the frame is rendered. The new state
    /// is exactly [`spec_tick`] of the old one, and a pad that was
    /// `Visited` stays `Visited` for the rest of the episode.
    pub fn tick(&mut self)
        requires
            old(self)@.wf(),
        ensures
            final(self)@ == spec_tick(old(self)@),
            final(self)@.wf(),
            !old(self)@.reset_requested ==> forall|k: int|
                0 <= k < old(self)@.waypoints.len() && (#[trigger] old(
                    self,
                )@.waypoints[k]).role == Role::Visited ==> final(self)@.waypoints[k].role
                == Role::Visited,
            chain_wf(old(self)@.waypoints) ==> chain_wf(final(self)@.waypoints),
            old(self)@.reset_requested ==> chain_wf(final(self)@.waypoints)
                && final(self)@.waypoints[0].role == Role::Current,
    {
        let ghost s0 = self@;
        if self.reset_requested {
            self.reset_requested = false;
            self.move_requested = false;
            clear_frame(&mut self.frame);
            let gw = (self.width / self.waypoint_size) as usize;
            let gh = (self.height / self.waypoint_size) as usize;
            proof {
                assert(1 <= gw as int <= 0xff00 && 1 <= gh as int <= 0xff00) by (nonlinear_arith)
                    requires
                        gw as int == s0.width as int / s0.waypoint_size as int,
                        gh as int == s0.height as int / s0.waypoint_size as int,
                        1 <= s0.waypoint_size as int,
                        s0.waypoint_size as int <= s0.width as int,
                        s0.waypoint_size as int <= s0.height as int,
                        s0.width as int <= 0xff00,
                        s0.height as int <= 0xff00;
                assert(self.grid@.len() == gw * gh);
            }
            spawn_waypoints(
                &mut self.grid,
                &mut self.waypoints,
                &mut self.rng,
                gw,
                gh,
                self.waypoint_size,
            );
            spawn_pursuers(&mut self.pursuers, &mut self.rng, self.width, self.height);
            proof {
                let size = s0.waypoint_size;
                let width = s0.width;
                let height = s0.height;
                let chain = spec_spawn_chain(gw as int, gh as int, s0.rng);
                lemma_spawn_chain_isolated(gw as int, gh as int, s0.rng);
                lemma_spawn_pursuers_bounds(s0.pursuers, chain.2, width, height, 0);
                vstd::arithmetic::div_mod::lemma_fundamental_div_mod(
                    width as int,
                    size as int,
                );
                vstd::arithmetic::div_mod::lemma_fundamental_div_mod(
                    height as int,
                    size as int,
                );
                assert forall|k: int| 0 <= k < self.waypoints@.len() implies (#[trigger] self
                    .waypoints@[k]).x + size <= width && self.waypoints@[k].y + size
                    <= height by {
                    let cells = chain.0;
                    if k < cells.len() {
                        let c = cells[k].0;
                        let r = cells[k].1;
                        assert((c + 1) * size <= (gw as int) * size && (r + 1) * size <= (gh
                            as int) * size) by (nonlinear_arith)
                            requires
                                0 <= c < gw as int,
                                0 <= r < gh as int,
                                0 <= size;
                        assert((gw as int) * size <= width && (gh as int) * size <= height);
                        assert(c * size + size <= width) by (nonlinear_arith)
                            requires
                                (c + 1) * size <= width,
                                size >= 0,
                                c >= 0;
                        assert(r * size + size <= height) by (nonlinear_arith)
                            requires
                                (r + 1) * size <= height,
                                size >= 0,
                                r >= 0;
                    }
                }
                lemma_waypoints_of_cells_chain_wf(chain.0, size);
                assert(self@ =~= spec_reset_step(s0));
            }
        } else {
            let arrived = if self.move_requested {
                move_player(&mut self.waypoints, self.waypoint_speed)
            } else {
                false
            };
            if arrived {
                self.move_requested = false;
            }
            proof {
                if s0.move_requested {
                    lemma_move_player_bounds(
                        s0.waypoints,
                        s0.waypoint_speed,
                        s0.width,
                        s0.height,
                        s0.waypoint_size,
                    );
                }
            }
            let actor = match find_role_index(&self.waypoints, Role::Current) {
                Some(ci) => {
                    let wp = self.waypoints[ci];
                    Some((wp.x, wp.y))
                },
                None => None,
            };
            let ghost moved = if s0.move_requested {
                spec_move_player(s0.waypoints, s0.waypoint_speed)
            } else {
                (s0.waypoints, false)
            };
            proof {
                assert(self.waypoints@ == moved.0);
                assert(actor == spec_actor(moved.0));
                match actor {
                    Some(a) => {
                        lemma_find_role_from(moved.0, Role::Current, 0);
                        assert(a.0 <= s0.width && a.1 <= s0.height);
                    },
                    None => {},
                }
            }
            move_pursuers(&mut self.pursuers, &mut self.rng, actor);
            proof {
                lemma_move_pursuers_bounds(s0.pursuers, actor, s0.rng, 0, s0.width, s0.height);
                assert(self.pursuers@ == spec_move_pursuers(s0.pursuers, actor, s0.rng).0);
                assert forall|k: int| 0 <= k < self.pursuers@.len() implies (#[trigger] self
                    .pursuers@[k]).x <= s0.width && self.pursuers@[k].y <= s0.height by {
                    assert(self.pursuers@[k] == crate::pursuit::spec_move_pursuers_from(
                        s0.pursuers,
                        actor,
                        s0.rng,
                        0,
                    ).0[k]);
                }
            }
            check_collision(&mut self.waypoints, &self.pursuers, self.waypoint_size);
            render_frame(
                &mut self.frame,
                self.width as usize,
                &self.waypoints,
                &self.pursuers,
                self.waypoint_size,
            );
            proof {
                if s0.move_requested {
                    lemma_move_player_visited(s0.waypoints, s0.waypoint_speed);
                }
                if chain_wf(s0.waypoints) {
                    if s0.move_requested {
                        lemma_move_player_chain_wf(s0.waypoints, s0.waypoint_speed);
                    }
                    lemma_check_collision_chain_wf(
                        moved.0,
                        spec_move_pursuers(s0.pursuers, actor, s0.rng).0,
                        s0.waypoint_size,
                    );
                }
                assert(self@ =~= spec_frame_step(s0));
            }
        }
    }
}

/// One host step: the host may set the input flags, then the core
/// ticks once.
pub open spec fn spec_step_with_input(s: SimView, mv: bool, rs: bool) -> SimView {
    spec_tick(
        SimView {
            move_requested: s.move_requested || mv,
            reset_requested: s.reset_requested || rs,
            ..s
        },
    )
}

/// A whole run: the state after feeding a sequence of per-tick inputs
/// (move request, reset request) to a simulation.
pub open spec fn spec_replay(s: SimView, inputs: Seq<(bool, bool)>) -> SimView
    decreases inputs.len(),
{
    if inputs.len() == 0 {
        s
    } else {
        spec_replay(spec_step_with_input(s, inputs[0].0, inputs[0].1), inputs.drop_first())
    }
}

/// Replay determinism: the same seed and the same input sequence give
/// bit-identical states — waypoint positions and pixel buffer included.
/// Every tick is a function of the previous state alone, so two runs of
/// one configuration cannot diverge.
pub proof fn lemma_replay_deterministic(
    width: u32,
    height: u32,
    waypoint_size: u32,
    waypoint_speed: u32,
    seed: u32,
    inputs: Seq<(bool, bool)>,
    s1: SimView,
    s2: SimView,
)
    requires
        s1 == spec_replay(spec_init(width, height, waypoint_size, waypoint_speed, seed), inputs),
        s2 == spec_replay(spec_init(width, height, waypoint_size, waypoint_speed, seed), inputs),
    ensures
        s1 == s2,
        s1.waypoints == s2.waypoints,
        s1.frame == s2.frame,
{
}

/// Chain monotonicity: within an episode (no reset pending), a pad
/// that has reached `Visited` never returns to `Current`, `NextTarget`
/// or any other role.
pub proof fn lemma_visited_monotonic(s: SimView)
    requires
        !s.reset_requested,
    ensures
        forall|k: int|
            0 <= k < s.waypoints.len() && (#[trigger] s.waypoints[k]).role == Role::Visited
                ==> spec_tick(s).waypoints[k].role == Role::Visited,
{
    if s.move_requested {
        lemma_move_player_visited(s.waypoints, s.waypoint_speed);
        crate::motion::lemma_move_player_len(s.waypoints, s.waypoint_speed);
    }
}

/// A move request with no `Current`/`NextTarget` pair is an idle tick:
/// every pad keeps its position and the request flag is not cleared.
pub proof fn lemma_idle_without_target(s: SimView)
    requires
        !s.reset_requested,
        find_role(s.waypoints, Role::NextTarget) is None || find_role(s.waypoints, Role::Current)
            is None,
    ensures
        spec_tick(s).move_requested == s.move_requested,
        spec_tick(s).waypoints.len() == s.waypoints.len(),
        forall|k: int|
            0 <= k < s.waypoints.len() ==> (#[trigger] spec_tick(s).waypoints[k]).x
                == s.waypoints[k].x && spec_tick(s).waypoints[k].y == s.waypoints[k].y,
{
}

/// The fatal-halt policy. The core has no recoverable-error paths: its
/// verified functions cannot panic, and a truly unreachable state in
/// the hosting shell has no runtime to recover into. Whatever went
/// wrong, the status handed to the host is "terminated", never
/// "continue" — the encounter simply stalls on its last frame.
pub fn handle_panic() -> (status: u32)
    ensures
        status == 0,
{
    0
}

/// For all successful placements, no two active pads' grid cells are
/// equal or orthogonally adjacent: the pads a reset tick spawns leave
/// walking room around one another.
pub proof fn lemma_reset_placement_isolated(s: SimView)
    requires
        s.wf(),
        s.reset_requested,
    ensures
        ({
            let wps = spec_tick(s).waypoints;
            let size = s.waypoint_size;
            forall|k: int, l: int|
                0 <= k < l < wps.len() && (#[trigger] wps[k]).role != Role::Inactive
                    && (#[trigger] wps[l]).role != Role::Inactive ==> !crate::grid::cell_near(
                    wps[k].x as int / size as int,
                    wps[k].y as int / size as int,
                    wps[l].x as int / size as int,
                    wps[l].y as int / size as int,
                )
        }),
{
    assert(1 <= s.grid_w() <= 0xff00 && 1 <= s.grid_h() <= 0xff00) by (nonlinear_arith)
        requires
            s.grid_w() == s.width as int / s.waypoint_size as int,
            s.grid_h() == s.height as int / s.waypoint_size as int,
            1 <= s.waypoint_size as int,
            s.waypoint_size as int <= s.width as int,
            s.waypoint_size as int <= s.height as int,
            s.width as int <= 0xff00,
            s.height as int <= 0xff00;
    crate::placement::lemma_spawned_waypoints_isolated(
        s.grid_w(),
        s.grid_h(),
        s.rng,
        s.waypoint_size,
    );
}

} // verus!

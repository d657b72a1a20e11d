use blockwars::Sim;
use blockwars::Role;
use blockwars::Waypoint;
use blockwars::Pursuer;

fn fresh(seed: u32) -> Sim {
    Sim::new(255, 255, 10, 15, seed)
}

fn chain_len(sim: &Sim) -> usize {
    sim.waypoints.iter().filter(|w| w.role != Role::Inactive).count()
}

#[test]
fn reset_spawns_a_chain() {
    // Grid 255 x 255, waypoint size 10, seed 42: after a reset the
    // chain has between 2 and MAX_WAYPOINTS pads, pad 0 carries the
    // actor and pad 1 is its target.
    let mut sim = fresh(42);
    sim.set_reset();
    sim.tick();
    assert!(!sim.reset_requested);
    let len = chain_len(&sim);
    assert!((2..=10).contains(&len), "chain length {} out of range", len);
    assert_eq!(sim.waypoints[0].role, Role::Current);
    assert_eq!(sim.waypoints[1].role, Role::NextTarget);
}

#[test]
fn placement_keeps_walking_room() {
    // Over many seeds, no two pads of a fresh chain sit on the same or
    // on orthogonally adjacent grid cells.
    for seed in 0..150u32 {
        let mut sim = fresh(seed);
        sim.set_reset();
        sim.tick();
        let cells: Vec<(u32, u32)> = sim
            .waypoints
            .iter()
            .filter(|w| w.role != Role::Inactive)
            .map(|w| (w.x / 10, w.y / 10))
            .collect();
        for i in 0..cells.len() {
            for j in (i + 1)..cells.len() {
                let dc = cells[i].0.abs_diff(cells[j].0);
                let dr = cells[i].1.abs_diff(cells[j].1);
                assert!(
                    dc + dr >= 2,
                    "seed {}: pads {:?} and {:?} touch",
                    seed,
                    cells[i],
                    cells[j]
                );
            }
        }
    }
}

#[test]
fn replay_is_bit_identical() {
    let mut a = fresh(7);
    let mut b = fresh(7);
    let drive = |sim: &mut Sim| {
        sim.set_reset();
        sim.tick();
        for t in 0..120 {
            if t % 3 == 0 {
                sim.set_move_request();
            }
            sim.tick();
        }
    };
    drive(&mut a);
    drive(&mut b);
    assert_eq!(a.waypoints, b.waypoints);
    assert_eq!(a.pursuers, b.pursuers);
    assert_eq!(a.frame, b.frame);
    assert_eq!(a.rng.state, b.rng.state);
}

#[test]
fn different_seeds_diverge() {
    let mut a = fresh(1);
    let mut b = fresh(2);
    a.set_reset();
    b.set_reset();
    a.tick();
    b.tick();
    // Not a law, but with these seeds the chains differ.
    assert_ne!(a.waypoints, b.waypoints);
}

#[test]
fn visited_never_returns() {
    let mut sim = fresh(3);
    sim.set_reset();
    sim.tick();
    let mut visited = [false; 10];
    sim.set_move_request();
    for _ in 0..400 {
        sim.tick();
        sim.set_move_request();
        for (k, wp) in sim.waypoints.iter().enumerate() {
            if visited[k] {
                assert_eq!(wp.role, Role::Visited, "slot {} left Visited", k);
            }
            if wp.role == Role::Visited {
                visited[k] = true;
            }
        }
    }
    assert!(visited.iter().any(|&v| v), "no pad was ever visited");
}

#[test]
fn arrival_snaps_to_target() {
    // Distance 10 is within one step of speed 15: the pad lands on the
    // target exactly and the chain advances.
    let mut sim = fresh(0);
    sim.waypoints[0] = Waypoint { x: 40, y: 80, role: Role::Current };
    sim.waypoints[1] = Waypoint { x: 50, y: 80, role: Role::NextTarget };
    sim.waypoints[2] = Waypoint { x: 120, y: 80, role: Role::Queued };
    sim.set_move_request();
    sim.tick();
    assert_eq!(sim.waypoints[0], Waypoint { x: 50, y: 80, role: Role::Visited });
    assert_eq!(sim.waypoints[1], Waypoint { x: 50, y: 80, role: Role::Current });
    assert_eq!(sim.waypoints[2], Waypoint { x: 120, y: 80, role: Role::NextTarget });
    assert!(!sim.move_requested, "arrival serves the request");
}

#[test]
fn travel_does_not_overshoot_axis() {
    // Distance 20 along one axis at speed 15: one tick advances by
    // exactly 15 pixels, the next tick snaps the remaining 5.
    let mut sim = fresh(0);
    sim.waypoints[0] = Waypoint { x: 40, y: 80, role: Role::Current };
    sim.waypoints[1] = Waypoint { x: 60, y: 80, role: Role::NextTarget };
    sim.set_move_request();
    sim.tick();
    assert_eq!(sim.waypoints[0], Waypoint { x: 55, y: 80, role: Role::Current });
    assert!(sim.move_requested, "still travelling: request stays");
    sim.tick();
    assert_eq!(sim.waypoints[0], Waypoint { x: 60, y: 80, role: Role::Visited });
    assert_eq!(sim.waypoints[1].role, Role::Current);
    assert!(!sim.move_requested);
}

#[test]
fn move_request_without_target_is_idle() {
    // A fresh simulation has no chain: the request changes nothing and
    // is not cleared by the no-op tick.
    let mut sim = fresh(9);
    let before: Vec<Waypoint> = sim.waypoints.clone();
    sim.set_move_request();
    sim.tick();
    assert_eq!(sim.waypoints, before);
    assert!(sim.move_requested, "request must survive the idle tick");
}

#[test]
fn coincident_pursuer_captures_current_pad() {
    let mut sim = fresh(0);
    sim.waypoints[0] = Waypoint { x: 50, y: 50, role: Role::Current };
    sim.waypoints[1] = Waypoint { x: 120, y: 50, role: Role::NextTarget };
    sim.pursuers[0] = Pursuer { x: 50, y: 50, alive: true, wait: 5 };
    sim.tick();
    assert_eq!(sim.waypoints[0].role, Role::Inactive, "the pad was captured");
    assert_eq!(sim.waypoints[1].role, Role::NextTarget, "other pads are untouched");
}

#[test]
fn pursuer_ignores_queued_pads() {
    // Only the pad whose role marks it as the actor's is tested for
    // collision; future chain links survive contact.
    let mut sim = fresh(0);
    sim.waypoints[0] = Waypoint { x: 200, y: 200, role: Role::Current };
    sim.waypoints[1] = Waypoint { x: 50, y: 50, role: Role::Queued };
    sim.pursuers[0] = Pursuer { x: 50, y: 50, alive: true, wait: 5 };
    sim.tick();
    assert_eq!(sim.waypoints[1].role, Role::Queued);
}

#[test]
fn frame_paints_roles_and_background() {
    let mut sim = fresh(0);
    sim.waypoints[0] = Waypoint { x: 50, y: 50, role: Role::Current };
    sim.tick();
    let width = 255usize;
    // Inside the pad: the Current color.
    assert_eq!(sim.frame[55 * width + 55], 1);
    // Just outside the pad: background.
    assert_eq!(sim.frame[55 * width + 45], 0);
    assert_eq!(sim.frame[45 * width + 55], 0);
    assert_eq!(sim.frame.len(), 255 * 255);
}

#[test]
fn pursuers_step_towards_the_actor() {
    let mut sim = fresh(0);
    sim.waypoints[0] = Waypoint { x: 100, y: 100, role: Role::Current };
    sim.pursuers[0] = Pursuer { x: 90, y: 120, alive: true, wait: 0 };
    sim.pursuers[1] = Pursuer { x: 90, y: 120, alive: true, wait: 2 };
    sim.tick();
    // Eligible pursuer: one pixel per axis towards the pad, and a new
    // wait drawn from [1, 8].
    assert_eq!((sim.pursuers[0].x, sim.pursuers[0].y), (91, 119));
    assert!((1..=8).contains(&sim.pursuers[0].wait));
    // Waiting pursuer: the counter only ticks down.
    assert_eq!((sim.pursuers[1].x, sim.pursuers[1].y), (90, 120));
    assert_eq!(sim.pursuers[1].wait, 1);
}

#[test]
fn reset_spawns_pursuers_on_the_boundary() {
    let mut sim = fresh(11);
    sim.set_reset();
    sim.tick();
    for p in sim.pursuers.iter() {
        assert!(p.alive);
        assert!((1..=8).contains(&p.wait));
        let on_edge = p.x == 0 || p.y == 0 || p.x == 255 - 10 || p.y == 255 - 5;
        assert!(on_edge, "pursuer at ({}, {}) not on an edge", p.x, p.y);
    }
}

#[test]
fn at_most_one_current_and_target() {
    // The chain invariant over a long run: never two pads carrying the
    // actor, never two targets.
    let mut sim = fresh(21);
    sim.set_reset();
    sim.tick();
    for t in 0..300 {
        if t % 2 == 0 {
            sim.set_move_request();
        }
        sim.tick();
        let currents = sim.waypoints.iter().filter(|w| w.role == Role::Current).count();
        let targets = sim.waypoints.iter().filter(|w| w.role == Role::NextTarget).count();
        assert!(currents <= 1, "tick {}: {} Current pads", t, currents);
        assert!(targets <= 1, "tick {}: {} NextTarget pads", t, targets);
    }
}

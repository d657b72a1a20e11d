//! The entities of the simulation: waypoints with their chain role, and
//! pursuers living in a fixed-capacity slot pool.

use vstd::prelude::*;

verus! {

/// Capacity of the waypoint chain.
pub const MAX_WAYPOINTS: usize = 10;

/// Capacity of the pursuer slot pool.
pub const MAX_PURSUERS: usize = 15;

/// Pixel width of a pursuer's bounding box.
pub const PURSUER_WIDTH: u32 = 10;

/// Pixel height of a pursuer's bounding box.
pub const PURSUER_HEIGHT: u32 = 5;

/// Color written for a pursuer by the renderer.
pub const PURSUER_COLOR: u32 = 5;

/// The role of a waypoint inside the chain. A fresh chain assigns
/// `Current` to index 0, `NextTarget` to index 1 and `Queued` beyond;
/// unused slots are `Inactive`. Arrival turns the travelling `Current`
/// pad into `Visited`, and a captured pad becomes `Inactive`.
#[derive(Clone, Copy, PartialEq, Eq, Structural, Debug)]
pub enum Role {
    /// Unused slot, or a pad captured by a pursuer.
    Inactive,
    /// The pad the actor currently occupies (and moves with).
    Current,
    /// The pad the actor is travelling towards.
    NextTarget,
    /// A pad later in the chain, not yet in play.
    Queued,
    /// A pad the actor has already visited.
    Visited,
}

/// The color a waypoint of the given role is drawn with; also its
/// draw priority.
pub open spec fn spec_role_color(role: Role) -> u32 {
    match role {
        Role::Inactive => 0u32,
        Role::Current => 1u32,
        Role::NextTarget => 2u32,
        Role::Queued => 3u32,
        Role::Visited => 4u32,
    }
}

/// Executable counterpart of [`spec_role_color`].
pub fn role_color(role: Role) -> (c: u32)
    ensures
        c == spec_role_color(role),
{
    match role {
        Role::Inactive => 0,
        Role::Current => 1,
        Role::NextTarget => 2,
        Role::Queued => 3,
        Role::Visited => 4,
    }
}

/// A teleporter pad: a fixed-size square at a pixel position, tagged
/// with its chain role.
#[derive(Clone, Copy, PartialEq, Eq, Structural, Debug)]
pub struct Waypoint {
    /// Left edge, in pixels.
    pub x: u32,
    /// Top edge, in pixels.
    pub y: u32,
    /// Chain role of this slot.
    pub role: Role,
}

/// A seeker entity in the slot pool. A slot is free when `alive` is
/// false, enabling direct reuse without reindexing.
#[derive(Clone, Copy, PartialEq, Eq, Structural, Debug)]
pub struct Pursuer {
    /// Left edge, in pixels.
    pub x: u32,
    /// Top edge, in pixels.
    pub y: u32,
    /// Whether the slot holds a live pursuer.
    pub alive: bool,
    /// Ticks to wait before the next step; redrawn from the generator
    /// when it reaches zero.
    pub wait: u32,
}

} // verus!

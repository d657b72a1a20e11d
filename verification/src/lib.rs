//! A verified single-screen simulation core: an actor hops along a
//! procedurally placed chain of waypoint pads on a grid while pursuers
//! seek it, and every frame is rasterized into a flat pixel buffer.
//!
//! The crate is organised leaf-first: a deterministic pseudo-random
//! generator, integer geometry (square root, box overlap), a grid
//! occupancy map, waypoint placement, the chain state machine and actor
//! motion, the pursuer population, the collision resolver, the frame
//! renderer, and finally the simulation state that ties one tick together.

pub mod collision;
pub mod entities;
pub mod geom;
pub mod grid;
pub mod motion;
pub mod placement;
pub mod pursuit;
pub mod render;
pub mod rng;
pub mod sim;

pub use entities::Pursuer;
pub use entities::Role;
pub use entities::Waypoint;
pub use geom::Rect;
pub use rng::Rng;
pub use sim::Sim;
pub use sim::SimView;

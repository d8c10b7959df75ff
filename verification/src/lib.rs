//! A deterministic 2D rigid-circle physics simulation.
//!
//! The world advances in discrete ticks: queued commands are drained, per-tick
//! forces (damping, radius decay) are applied, then a fixed number of sub-steps
//! integrate gravity and motion, bounce circles off the walls, and resolve
//! circle/circle and circle/obstacle collisions found through a uniform grid.
//! Every tick ends with an immutable snapshot frame for a renderer.
//!
//! All quantities are fixed-point numbers: an `i64` counting thousandths of a
//! world unit (see [`fixed::SCALE`]), so the whole simulation is exact integer
//! arithmetic and every pass has a mathematical specification.

pub mod body;
pub mod broad;
pub mod collision;
pub mod fixed;
pub mod queue;
pub mod shapes;
pub mod world;

pub use body::{Circle, GridMessage, StaticCircle, StaticRectangle};
pub use fixed::{clamp, FX_MAX, SCALE};
pub use queue::CommandQueue;
pub use shapes::create_rounded_rectangle;
pub use world::{Config, Grid, GridFrame};

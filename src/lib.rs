//! Tick-mark planning and screen mapping for graph axes.
//!
//! Data values are integers in a unit of the caller's choosing; tick values
//! come back as exact fixed-point numbers (see [`ticks::TICK_SCALE`]), so that
//! every tick is `origin + k * step` with no rounding drift.

pub mod closest;
pub mod ticks;
pub mod mapping;
pub mod axis;
pub mod graph;

pub use axis::{Axis, Orientation, State};
pub use graph::LineGraph;

//! A stateful 2D drawing context that turns canvas-style commands into a replayable
//! display list.
pub mod color;
pub mod context;
pub mod filter;
pub mod geometry;
pub mod path;
pub mod state;
pub mod text;

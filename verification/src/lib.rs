//! A floating scratch shell for a terminal multiplexer: the configuration
//! reader, the workspace snapshot reader, the floating-box geometry, and the
//! colour and painting decisions of the renderer.
pub mod text;
pub mod config;
pub mod geometry;
pub mod snapshot;
pub mod color;
pub mod render;
pub mod events;

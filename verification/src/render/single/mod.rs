//! The single-threaded renderer.

pub mod renderer;

pub use renderer::SingleThreadRenderer;

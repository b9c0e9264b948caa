//! The multi-threaded renderer: the image is split into horizontal
//! bands, each rendered by an independent single-band renderer.

pub mod renderer;

pub use renderer::{band_extent, MultiThreadRenderer, MultiThreadRendererConfig};

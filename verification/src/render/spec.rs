//! Common definitions for the rendering backends.

use vstd::prelude::*;

verus! {

/// The collection of all renderers.
#[derive(Clone, Copy, Debug, Eq, Hash, PartialEq, Structural)]
pub enum RenderBackend {
    /// Renders rays single-threaded.
    SingleThreaded,
    /// Renders rays multi-threaded.
    MultiThreaded,
}

} // verus!

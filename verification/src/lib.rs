//! A terminal sketch pad core: an integer grid of glyph cells, a tracer that
//! connects two points with a directional ASCII line, and a canvas state
//! machine that reconciles committed strokes, an in-progress stroke and a
//! pinned overlay while keeping a render sink consistent with that state.

use vstd::prelude::*;

pub mod canvas;
pub mod grid;
pub mod sink;
pub mod trace;

verus! {

/// A failure while rendering to the sink: either the output could not be
/// formatted, or the underlying write failed. Both propagate to the caller
/// immediately; the core never retries.
#[derive(Clone, Copy, Debug, PartialEq, Eq, Structural)]
pub enum Error {
    Fmt,
    Io,
}

} // verus!

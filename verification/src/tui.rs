//! What the rendering loop is asked to do next.

use vstd::prelude::*;

verus! {

/// One instruction to the rendering loop.
#[derive(Debug, Clone, Copy, PartialEq, Eq, Structural)]
pub enum RenderingTask {
    ClearScreen,
    Render,
    Resize(u16, u16),
    Resume,
    Suspend,
    Quit,
}

} // verus!

//! The events the outer loop feeds the application.

use vstd::prelude::*;

verus! {

/// One event from the terminal or the clock.
#[derive(Debug, Clone, Copy)]
pub enum Event<I> {
    /// The event stream closed.
    Closed,
    /// A key or other input arrived.
    Input(I),
    FocusLost,
    FocusGained,
    /// The terminal was resized to the given width and height.
    Resize(u16, u16),
    /// One tick of the application clock.
    Tick,
}

} // verus!

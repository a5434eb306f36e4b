//! Screen dimensions.

use vstd::prelude::*;

verus! {

/// The portion of the screen the interface takes, in percent.
pub const UI_WIDTH_PERCENT: u16 = 95;

pub const UI_HEIGHT_PERCENT: u16 = 95;

/// A width and a height, in percent of the screen.
#[derive(Debug, Clone, Copy, PartialEq, Eq, Structural)]
pub struct Dimensions {
    pub x: u16,
    pub y: u16,
}

impl Dimensions {
    pub fn new(x: u16, y: u16) -> (r: Self)
        ensures
            r == (Dimensions { x, y }),
    {
        Dimensions { x, y }
    }
}

impl From<u16> for Dimensions {
    /// A square footprint.
    fn from(x: u16) -> (r: Self) {
        Dimensions { x, y: x }
    }
}

impl vstd::std_specs::convert::FromSpecImpl<u16> for Dimensions {
    open spec fn obeys_from_spec() -> bool {
        true
    }

    open spec fn from_spec(x: u16) -> Dimensions {
        Dimensions { x, y: x }
    }
}

impl Default for Dimensions {
    fn default() -> (r: Self)
        ensures
            r == (Dimensions { x: UI_WIDTH_PERCENT, y: UI_HEIGHT_PERCENT }),
    {
        Dimensions { x: UI_WIDTH_PERCENT, y: UI_HEIGHT_PERCENT }
    }
}

} // verus!

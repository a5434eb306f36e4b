//! The kinds of channels entries can come from.

use vstd::prelude::*;

verus! {

/// The channels that can be selected from the command line.
#[derive(Debug, Clone, Copy, PartialEq, Eq, Structural)]
pub enum CliTvChannel {
    Text,
}

impl Default for CliTvChannel {
    fn default() -> (r: Self)
        ensures
            r == CliTvChannel::Text,
    {
        CliTvChannel::Text
    }
}

/// The kinds of channels, without their instances.
#[derive(Debug, Clone, Copy, PartialEq, Eq, Structural)]
pub enum UnitChannel {
    Text,
    Stdin,
    Cable,
}

} // verus!

//! The poly-mix module's modes: how the channels of one polyphonic input
//! are mixed down to one.

use vstd::prelude::*;

verus! {

/// How the poly-mix module combines channels.
#[derive(Clone, Copy, Debug, PartialEq, Eq, Structural)]
pub enum MixMode {
    /// Sum all channels.
    Sum,
    /// Average all channels.
    Average,
    /// The largest absolute value.
    Max,
    /// The smallest absolute value.
    Min,
}

impl Default for MixMode {
    /// Summing.
    fn default() -> (r: Self)
        ensures
            r == MixMode::Sum,
    {
        MixMode::Sum
    }
}

} // verus!

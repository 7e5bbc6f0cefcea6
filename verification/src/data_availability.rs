//! Where the data of a block is published.

use vstd::prelude::*;

verus! {

/// The layer-1 data availability mode of a block.
#[derive(Clone, Copy, Debug, PartialEq, Eq, Hash, PartialOrd, Ord, Structural)]
pub enum L1DataAvailabilityMode {
    Calldata,
    Blob,
}

impl Default for L1DataAvailabilityMode {
    fn default() -> (mode: L1DataAvailabilityMode)
        ensures
            mode == L1DataAvailabilityMode::Calldata,
    {
        L1DataAvailabilityMode::Calldata
    }
}

} // verus!

use vstd::prelude::*;

verus! {

/// Why a buffer could not be configured as asked.
#[derive(Clone, Copy, Debug, PartialEq, Eq)]
pub enum ConfigError {
    /// A buffer must hold at least one sample.
    ZeroCapacity,
    /// The jump set would let a cursor leave the buffer: a destination lies
    /// outside it, or nothing relocates the cursor from the last slot.
    InvalidJumps,
}

} // verus!

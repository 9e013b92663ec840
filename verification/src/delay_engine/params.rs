use vstd::prelude::*;

verus! {

/// Whether both channels share one delay setting or each has its own.
#[derive(Clone, Copy, Debug, PartialEq, Eq)]
pub enum DelayMode {
    Mono,
    Stereo,
}

} // verus!

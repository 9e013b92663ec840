use vstd::prelude::*;

verus! {

/// Which output of a state-variable filter is heard.
#[derive(Clone, Copy, Debug, PartialEq, Eq)]
pub enum SVFFilterMode {
    Low,
    Band,
    High,
    Notch,
    Peak,
}

/// Whether both channels share one filter setting or each has its own.
#[derive(Clone, Copy, Debug, PartialEq, Eq)]
pub enum SVFStereoMode {
    Mono,
    Stereo,
}

} // verus!

use vstd::prelude::*;

pub mod dattorro;
pub mod params;

verus! {

/// A processor of one channel: each call takes a sample and gives one,
/// and may change the filter's own state.
///
/// `steps` says, as mathematics, what a call may do, and `process` is held
/// to it. As declared here it allows every outcome; a filter whose
/// behaviour can be stated says so in its own `steps`.
pub trait Filter: Sized {
    /// The type of a sample.
    type Sample;

    /// Whether one call may turn `input` into `output` and leave the
    /// filter as `next`.
    open spec fn steps(self, input: Self::Sample, next: Self, output: Self::Sample) -> bool {
        true
    }

    /// Takes one sample and gives one.
    fn process(&mut self, input: Self::Sample) -> (output: Self::Sample)
        ensures
            old(self).steps(input, *final(self), output),
    ;
}

/// A processor of a stereo pair: each call takes a left and a right sample
/// and gives a pair, and may change the filter's own state.
///
/// `steps_stereo` is to `process_stereo` what [`Filter::steps`] is to
/// [`Filter::process`].
pub trait StereoFilter: Sized {
    /// The type of a sample.
    type Sample;

    /// Whether one call may turn the pair `(input_l, input_r)` into
    /// `output` and leave the filter as `next`.
    open spec fn steps_stereo(
        self,
        input_l: Self::Sample,
        input_r: Self::Sample,
        next: Self,
        output: (Self::Sample, Self::Sample),
    ) -> bool {
        true
    }

    /// Takes a stereo pair and gives one.
    fn process_stereo(&mut self, input_l: Self::Sample, input_r: Self::Sample) -> (output: (
        Self::Sample,
        Self::Sample,
    ))
        ensures
            old(self).steps_stereo(input_l, input_r, *final(self), output),
    ;
}

} // verus!

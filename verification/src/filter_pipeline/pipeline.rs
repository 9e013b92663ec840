use crate::filters::Filter;
use crate::filters::StereoFilter;
use vstd::prelude::*;

verus! {

/// One slot of a pipeline: the filter instances that it applies.
pub enum FilterPipelineElement<M, S> {
    /// One mono filter for the left channel and one for the right.
    StereoMonoFilter(M, M),
    /// One filter that takes both channels together.
    StereoStereoFilter(S),
    /// A mono filter that is kept but not applied to a stereo pair.
    Mono(M),
}

impl<M: Filter, S: StereoFilter<Sample = M::Sample>> FilterPipelineElement<M, S> {
    /// Whether the slot may turn the pair `(l, r)` into `out` and be left
    /// as `next`: a pair slot sends each channel through its own filter, a
    /// joint slot sends both through its one filter, and a lone mono filter
    /// leaves the pair and itself alone.
    pub open spec fn steps(
        self,
        l: M::Sample,
        r: M::Sample,
        next: Self,
        out: (M::Sample, M::Sample),
    ) -> bool {
        match (self, next) {
            (
                FilterPipelineElement::StereoMonoFilter(filter_l, filter_r),
                FilterPipelineElement::StereoMonoFilter(next_l, next_r),
            ) => filter_l.steps(l, next_l, out.0) && filter_r.steps(r, next_r, out.1),
            (
                FilterPipelineElement::StereoStereoFilter(filter),
                FilterPipelineElement::StereoStereoFilter(next_filter),
            ) => filter.steps_stereo(l, r, next_filter, out),
            (FilterPipelineElement::Mono(filter), FilterPipelineElement::Mono(next_filter)) => {
                filter == next_filter && out == (l, r)
            },
            _ => false,
        }
    }

    /// Sends a stereo pair through the slot.
    pub fn process_stereo(&mut self, l: M::Sample, r: M::Sample) -> (out: (M::Sample, M::Sample))
        ensures
            old(self).steps(l, r, *final(self), out),
    {
        match self {
            FilterPipelineElement::StereoMonoFilter(filter_l, filter_r) => {
                let out_l = filter_l.process(l);
                let out_r = filter_r.process(r);
                (out_l, out_r)
            },
            FilterPipelineElement::StereoStereoFilter(filter) => filter.process_stereo(l, r),
            FilterPipelineElement::Mono(_) => (l, r),
        }
    }
}

/// Whether `pairs` are the stereo pairs between the slots of a row that is
/// left as `after`: one pair in front of each slot and one behind the last,
/// where each slot may turn the pair in front of it into the pair behind it.
pub open spec fn chain<M: Filter, S: StereoFilter<Sample = M::Sample>>(
    before: Seq<FilterPipelineElement<M, S>>,
    pairs: Seq<(M::Sample, M::Sample)>,
    after: Seq<FilterPipelineElement<M, S>>,
) -> bool {
    &&& after.len() == before.len()
    &&& pairs.len() == before.len() + 1
    &&& forall|i: int|
        0 <= i < before.len() ==> (#[trigger] before[i]).steps(
            pairs[i].0,
            pairs[i].1,
            after[i],
            pairs[i + 1],
        )
}

/// Whether a row of slots may turn the pair `(l, r)` into `out` and be left
/// as `after`: each slot in turn takes what the one before it gave, the
/// first takes `(l, r)`, and `out` is what the last one gives. An empty row
/// gives the pair back.
pub open spec fn runs<M: Filter, S: StereoFilter<Sample = M::Sample>>(
    before: Seq<FilterPipelineElement<M, S>>,
    l: M::Sample,
    r: M::Sample,
    after: Seq<FilterPipelineElement<M, S>>,
    out: (M::Sample, M::Sample),
) -> bool {
    exists|pairs: Seq<(M::Sample, M::Sample)>|
        {
            &&& #[trigger] chain(before, pairs, after)
            &&& pairs.first() == (l, r)
            &&& pairs.last() == out
        }
}

/// A pipeline that sends a stereo pair through its filters in the order in
/// which they were registered.
pub struct FilterPipeline<M, S> {
    registered_filters: Vec<FilterPipelineElement<M, S>>,
}

impl<M, S> View for FilterPipeline<M, S> {
    type V = Seq<FilterPipelineElement<M, S>>;

    closed spec fn view(&self) -> Seq<FilterPipelineElement<M, S>> {
        self.registered_filters@
    }
}

impl<M: Filter, S: StereoFilter<Sample = M::Sample>> FilterPipeline<M, S> {
    /// Makes a pipeline without filters.
    pub fn new() -> (pipeline: Self)
        ensures
            pipeline@ == Seq::<FilterPipelineElement<M, S>>::empty(),
    {
        FilterPipeline { registered_filters: Vec::new() }
    }

    /// Appends a slot with one mono filter per channel.
    pub fn register_stereo_pair(&mut self, filter_l: M, filter_r: M)
        ensures
            final(self)@ == old(self)@.push(
                FilterPipelineElement::StereoMonoFilter(filter_l, filter_r),
            ),
    {
        self.registered_filters.push(FilterPipelineElement::StereoMonoFilter(filter_l, filter_r));
    }

    /// Appends a slot with one filter for both channels.
    pub fn register_stereo(&mut self, filter: S)
        ensures
            final(self)@ == old(self)@.push(FilterPipelineElement::StereoStereoFilter(filter)),
    {
        self.registered_filters.push(FilterPipelineElement::StereoStereoFilter(filter));
    }

    /// Sends a stereo pair through every slot, in registration order, and
    /// gives what the last slot gave. The filters keep the state that the
    /// calls left them in.
    pub fn process_stereo(&mut self, input_l: M::Sample, input_r: M::Sample) -> (out: (
        M::Sample,
        M::Sample,
    ))
        ensures
            runs(old(self)@, input_l, input_r, final(self)@, out),
    {
        let mut l = input_l;
        let mut r = input_r;
        let mut i: usize = 0;
        let count = self.registered_filters.len();
        let ghost mut pairs: Seq<(M::Sample, M::Sample)> = seq![(input_l, input_r)];
        while i < count
            invariant
                i <= count,
                count == self@.len(),
                count == old(self)@.len(),
                chain(old(self)@.take(i as int), pairs, self@.take(i as int)),
                pairs.first() == (input_l, input_r),
                pairs.last() == (l, r),
                forall|k: int| i <= k < count ==> self@[k] == old(self)@[k],
            decreases count - i,
        {
            let ghost before = self@;
            let (next_l, next_r) = self.registered_filters[i].process_stereo(l, r);
            proof {
                let longer = pairs.push((next_l, next_r));
                let upto = old(self)@.take(i as int + 1);
                let upto_after = self@.take(i as int + 1);
                assert forall|k: int| 0 <= k < upto.len() implies (#[trigger] upto[k]).steps(
                    longer[k].0,
                    longer[k].1,
                    upto_after[k],
                    longer[k + 1],
                ) by {
                    if k < i {
                        assert(upto[k] == old(self)@.take(i as int)[k]);
                        assert(upto_after[k] == before.take(i as int)[k]);
                    }
                }
                pairs = longer;
            }
            l = next_l;
            r = next_r;
            i += 1;
        }
        proof {
            assert(old(self)@.take(count as int) =~= old(self)@);
            assert(self@.take(count as int) =~= self@);
        }
        (l, r)
    }
}

impl<M: Filter, S: StereoFilter<Sample = M::Sample>> StereoFilter for FilterPipeline<M, S> {
    type Sample = M::Sample;

    /// A call sends the pair through the pipeline's slots.
    open spec fn steps_stereo(
        self,
        input_l: M::Sample,
        input_r: M::Sample,
        next: Self,
        output: (M::Sample, M::Sample),
    ) -> bool {
        runs(self@, input_l, input_r, next@, output)
    }

    /// A pipeline is a filter of a stereo pair, so that pipelines nest: see
    /// [`FilterPipeline::process_stereo`].
    fn process_stereo(&mut self, input_l: M::Sample, input_r: M::Sample) -> (output: (
        M::Sample,
        M::Sample,
    )) {
        FilterPipeline::process_stereo(self, input_l, input_r)
    }
}

/// An empty row gives back the pair it was given, and nothing else.
pub proof fn lemma_runs_empty<M: Filter, S: StereoFilter<Sample = M::Sample>>(
    l: M::Sample,
    r: M::Sample,
    after: Seq<FilterPipelineElement<M, S>>,
    out: (M::Sample, M::Sample),
)
    ensures
        runs(Seq::<FilterPipelineElement<M, S>>::empty(), l, r, after, out) <==> after.len() == 0
            && out == (l, r),
{
    let empty = Seq::<FilterPipelineElement<M, S>>::empty();
    if after.len() == 0 && out == (l, r) {
        assert(chain(empty, seq![(l, r)], after));
    }
}

/// A row of slots keeps its length when a pair goes through.
pub proof fn lemma_runs_keeps_length<M: Filter, S: StereoFilter<Sample = M::Sample>>(
    before: Seq<FilterPipelineElement<M, S>>,
    l: M::Sample,
    r: M::Sample,
    after: Seq<FilterPipelineElement<M, S>>,
    out: (M::Sample, M::Sample),
)
    requires
        runs(before, l, r, after, out),
    ensures
        after.len() == before.len(),
{
}

/// Order is kept: a pair that goes through the first part of a row, and
/// what comes out of it through the rest, has gone through the whole row.
pub proof fn lemma_runs_in_order<M: Filter, S: StereoFilter<Sample = M::Sample>>(
    first: Seq<FilterPipelineElement<M, S>>,
    rest: Seq<FilterPipelineElement<M, S>>,
    l: M::Sample,
    r: M::Sample,
    first_after: Seq<FilterPipelineElement<M, S>>,
    mid: (M::Sample, M::Sample),
    rest_after: Seq<FilterPipelineElement<M, S>>,
    out: (M::Sample, M::Sample),
)
    requires
        runs(first, l, r, first_after, mid),
        runs(rest, mid.0, mid.1, rest_after, out),
    ensures
        runs(first + rest, l, r, first_after + rest_after, out),
{
    let front = choose|pairs: Seq<(M::Sample, M::Sample)>|
        {
            &&& #[trigger] chain(first, pairs, first_after)
            &&& pairs.first() == (l, r)
            &&& pairs.last() == mid
        };
    let back = choose|pairs: Seq<(M::Sample, M::Sample)>|
        {
            &&& #[trigger] chain(rest, pairs, rest_after)
            &&& pairs.first() == mid
            &&& pairs.last() == out
        };
    let whole = first + rest;
    let whole_after = first_after + rest_after;
    let pairs = front + back.drop_first();
    let split = first.len() as int;
    assert forall|i: int| 0 <= i < whole.len() implies (#[trigger] whole[i]).steps(
        pairs[i].0,
        pairs[i].1,
        whole_after[i],
        pairs[i + 1],
    ) by {
        if i < split {
            assert(first[i].steps(front[i].0, front[i].1, first_after[i], front[i + 1]));
            if i + 1 == split {
                assert(pairs[i + 1] == front.last());
            }
        } else {
            let j = i - split;
            assert(rest[j].steps(back[j].0, back[j].1, rest_after[j], back[j + 1]));
            if j == 0 {
                assert(pairs[i] == front.last());
            } else {
                assert(pairs[i] == back.drop_first()[j - 1]);
            }
            assert(pairs[i + 1] == back.drop_first()[j]);
        }
    }
    assert(chain(whole, pairs, whole_after));
}

/// Order is kept, the other way round: a pair that has gone through a row
/// has gone through its first part, and what came out of that through the
/// rest.
pub proof fn lemma_runs_splits<M: Filter, S: StereoFilter<Sample = M::Sample>>(
    first: Seq<FilterPipelineElement<M, S>>,
    rest: Seq<FilterPipelineElement<M, S>>,
    l: M::Sample,
    r: M::Sample,
    after: Seq<FilterPipelineElement<M, S>>,
    out: (M::Sample, M::Sample),
)
    requires
        runs(first + rest, l, r, after, out),
    ensures
        exists|mid: (M::Sample, M::Sample)|
            {
                &&& #[trigger] runs(first, l, r, after.take(first.len() as int), mid)
                &&& runs(rest, mid.0, mid.1, after.skip(first.len() as int), out)
            },
{
    let whole = first + rest;
    let split = first.len() as int;
    let pairs = choose|pairs: Seq<(M::Sample, M::Sample)>|
        {
            &&& #[trigger] chain(whole, pairs, after)
            &&& pairs.first() == (l, r)
            &&& pairs.last() == out
        };
    let front = pairs.take(split + 1);
    let back = pairs.skip(split);
    let mid = pairs[split];
    assert forall|i: int| 0 <= i < first.len() implies (#[trigger] first[i]).steps(
        front[i].0,
        front[i].1,
        after.take(split)[i],
        front[i + 1],
    ) by {
        assert(whole[i].steps(pairs[i].0, pairs[i].1, after[i], pairs[i + 1]));
    }
    assert(chain(first, front, after.take(split)));
    assert forall|j: int| 0 <= j < rest.len() implies (#[trigger] rest[j]).steps(
        back[j].0,
        back[j].1,
        after.skip(split)[j],
        back[j + 1],
    ) by {
        assert(whole[j + split].steps(
            pairs[j + split].0,
            pairs[j + split].1,
            after[j + split],
            pairs[j + split + 1],
        ));
    }
    assert(chain(rest, back, after.skip(split)));
    assert(runs(first, l, r, after.take(split), mid));
    assert(runs(rest, mid.0, mid.1, after.skip(split), out));
}

} // verus!

use crate::error::ConfigError;
use crate::filters::Filter;
use crate::ring::filled;
use crate::ring::index_back;
use crate::ring::index_forward;
use crate::ring::lemma_forward_adds;
use crate::ring::lemma_tap_after_writes;
use crate::ring::lemma_written;
use crate::ring::lemma_written_untouched;
use crate::ring::silent;
use crate::ring::step_back;
use crate::ring::step_forward;
use crate::ring::written;
use vstd::arithmetic::div_mod::lemma_fundamental_div_mod_converse_mod;
use vstd::arithmetic::div_mod::lemma_small_mod;
use vstd::prelude::*;
use vstd::slice::slice_to_vec;

verus! {

/// What a delay line holds, as plain mathematics.
pub struct LineState<T> {
    /// The stored samples, slot by slot.
    pub buffer: Seq<T>,
    /// The delay in samples.
    pub delay: int,
    /// The slot that the next insert fills.
    pub write_index: int,
}

impl<T> LineState<T> {
    /// The number of slots, which is the longest delay.
    pub open spec fn capacity(self) -> int {
        self.buffer.len() as int
    }

    /// The line has slots, its cursor stands on one, and its delay is at
    /// most its capacity.
    pub open spec fn wf(self) -> bool {
        &&& self.capacity() > 0
        &&& 0 <= self.write_index < self.capacity()
        &&& 0 <= self.delay <= self.capacity()
    }

    /// A silent line at its longest delay.
    pub open spec fn fresh(max_delay: int, silence: T) -> Self {
        LineState { buffer: silent(max_delay, silence), delay: max_delay, write_index: 0 }
    }

    /// The sample `delay` slots behind the cursor.
    pub open spec fn get_with_delay(self, delay: int) -> T {
        self.buffer[index_back(self.write_index, delay, self.capacity())]
    }

    /// The sample at the line's own delay.
    pub open spec fn get(self) -> T {
        self.get_with_delay(self.delay)
    }

    /// The line after `input` was stored under the cursor and the cursor
    /// moved on.
    pub open spec fn insert(self, input: T) -> Self {
        LineState {
            buffer: self.buffer.update(self.write_index, input),
            write_index: index_forward(self.write_index, self.capacity()),
            ..self
        }
    }

    /// The line with a delay of `delay` samples, counted modulo the
    /// capacity.
    pub open spec fn with_delay(self, delay: int) -> Self {
        LineState { delay: delay % self.capacity(), ..self }
    }

    /// How many inserts lie between a sample going in and coming out: the
    /// delay, or a full turn of the ring where the delay is zero.
    pub open spec fn reach(self) -> int {
        if self.delay == 0 {
            self.capacity()
        } else {
            self.delay
        }
    }

    /// The line after `inputs` were inserted one by one.
    pub open spec fn insert_all(self, inputs: Seq<T>) -> Self
        decreases inputs.len(),
    {
        if inputs.len() == 0 {
            self
        } else {
            self.insert_all(inputs.drop_last()).insert(inputs.last())
        }
    }

    /// What `process` returns call by call as `inputs` are fed in.
    pub open spec fn outputs(self, inputs: Seq<T>) -> Seq<T> {
        Seq::new(inputs.len(), |k: int| self.insert_all(inputs.take(k)).get())
    }
}

/// A delay line: a ring of samples that is read a fixed number of slots
/// behind the place where it is written.
#[derive(Debug)]
pub struct DelayLine<T> {
    buffer: Vec<T>,
    delay: usize,
    write_index: usize,
}

impl<T> View for DelayLine<T> {
    type V = LineState<T>;

    closed spec fn view(&self) -> LineState<T> {
        LineState {
            buffer: self.buffer@,
            delay: self.delay as int,
            write_index: self.write_index as int,
        }
    }
}

impl<T> DelayLine<T> {
    #[verifier::type_invariant]
    closed spec fn inv(&self) -> bool {
        self@.wf()
    }
}

/// A silent line of `max_delay` slots, set to that delay.
fn fresh_line<T: Copy>(max_delay: usize, silence: T) -> (line: DelayLine<T>)
    requires
        max_delay > 0,
    ensures
        line@.wf(),
        line@ == LineState::fresh(max_delay as int, silence),
{
    DelayLine { buffer: filled(max_delay, silence), delay: max_delay, write_index: 0 }
}

impl<T: Copy> Clone for DelayLine<T> {
    /// A line of its own with the same samples, delay and cursor.
    fn clone(&self) -> (copy: Self)
        ensures
            copy@ == self@,
    {
        proof {
            use_type_invariant(self);
        }
        DelayLine {
            buffer: slice_to_vec(self.buffer.as_slice()),
            delay: self.delay,
            write_index: self.write_index,
        }
    }
}

impl<T: Copy> DelayLine<T> {
    /// Makes a silent line of `max_delay` slots, set to that delay. A line
    /// without slots is refused.
    pub fn new(max_delay: usize, silence: T) -> (made: Result<Self, ConfigError>)
        ensures
            match made {
                Ok(line) => max_delay > 0 && line@.wf() && line@ == LineState::fresh(
                    max_delay as int,
                    silence,
                ),
                Err(error) => max_delay == 0 && error == ConfigError::ZeroCapacity,
            },
    {
        if max_delay == 0 {
            return Err(ConfigError::ZeroCapacity);
        }
        Ok(fresh_line(max_delay, silence))
    }

    /// Sets the delay, counted modulo the capacity.
    pub fn set_delay(&mut self, delay: usize)
        ensures
            final(self)@.wf(),
            final(self)@ == old(self)@.with_delay(delay as int),
    {
        proof {
            use_type_invariant(&*self);
        }
        self.delay = delay % self.buffer.len();
    }

    /// Returns the delayed sample and stores `input`: `get`, then `insert`.
    pub fn process(&mut self, input: T) -> (delayed: T)
        ensures
            final(self)@.wf(),
            delayed == old(self)@.get(),
            final(self)@ == old(self)@.insert(input),
    {
        let delayed = self.get();
        self.insert(input);
        delayed
    }

    /// The sample at the line's delay.
    pub fn get(&self) -> (delayed: T)
        ensures
            delayed == self@.get(),
    {
        self.get_with_delay(self.delay)
    }

    /// The sample `delay` slots behind the cursor, for any `delay`.
    pub fn get_with_delay(&self, delay: usize) -> (delayed: T)
        ensures
            delayed == self@.get_with_delay(delay as int),
    {
        proof {
            use_type_invariant(self);
        }
        let slot = step_back(self.write_index, delay, self.buffer.len());
        self.buffer[slot]
    }

    /// Stores `input` under the cursor and moves the cursor on.
    pub fn insert(&mut self, input: T)
        ensures
            final(self)@.wf(),
            final(self)@ == old(self)@.insert(input),
    {
        proof {
            use_type_invariant(&*self);
        }
        self.buffer[self.write_index] = input;
        self.write_index = step_forward(self.write_index, self.buffer.len());
    }
}

impl<T: Copy> Filter for DelayLine<T> {
    type Sample = T;

    /// A call gives the delayed sample and stores the input.
    open spec fn steps(self, input: T, next: Self, output: T) -> bool {
        output == self@.get() && next@ == self@.insert(input)
    }

    /// A delay line is a filter of one channel: see [`DelayLine::process`].
    fn process(&mut self, input: T) -> (output: T) {
        let delayed = self.get();
        self.insert(input);
        delayed
    }
}

/// What the output taps hold, as plain mathematics: three tap lines for
/// each channel.
pub struct TapsState<T> {
    pub l_1: LineState<T>,
    pub l_2: LineState<T>,
    pub l_3: LineState<T>,
    pub r_1: LineState<T>,
    pub r_2: LineState<T>,
    pub r_3: LineState<T>,
}

impl<T> TapsState<T> {
    /// The slots of each tap line for a sample rate: a quarter of a second.
    pub open spec fn capacity_at(sample_rate: int) -> int {
        sample_rate / 4
    }

    /// Six silent tap lines for a sample rate.
    pub open spec fn fresh(sample_rate: int, silence: T) -> Self {
        let line = LineState::fresh(Self::capacity_at(sample_rate), silence);
        TapsState { l_1: line, l_2: line, l_3: line, r_1: line, r_2: line, r_3: line }
    }

    /// Every tap line is well formed.
    pub open spec fn wf(self) -> bool {
        &&& self.l_1.wf()
        &&& self.l_2.wf()
        &&& self.l_3.wf()
        &&& self.r_1.wf()
        &&& self.r_2.wf()
        &&& self.r_3.wf()
    }

    /// The taps after one more sample went into each line.
    pub open spec fn record(self, left: (T, T, T), right: (T, T, T)) -> Self {
        TapsState {
            l_1: self.l_1.insert(left.0),
            l_2: self.l_2.insert(left.1),
            l_3: self.l_3.insert(left.2),
            r_1: self.r_1.insert(right.0),
            r_2: self.r_2.insert(right.1),
            r_3: self.r_3.insert(right.2),
        }
    }

    /// The seven taps that feed the left output, in the order in which the
    /// output stage combines them: four from the right channel's lines,
    /// then three from the left channel's.
    pub open spec fn left(self) -> Seq<T> {
        seq![
            self.r_1.get_with_delay(266),
            self.r_1.get_with_delay(2974),
            self.r_2.get_with_delay(1913),
            self.r_3.get_with_delay(1996),
            self.l_1.get_with_delay(1990),
            self.l_2.get_with_delay(187),
            self.l_3.get_with_delay(1066),
        ]
    }

    /// The seven taps that feed the right output, in the order in which the
    /// output stage combines them: four from the left channel's lines,
    /// then three from the right channel's.
    pub open spec fn right(self) -> Seq<T> {
        seq![
            self.l_1.get_with_delay(353),
            self.l_1.get_with_delay(3627),
            self.l_2.get_with_delay(1228),
            self.l_3.get_with_delay(2673),
            self.r_1.get_with_delay(2111),
            self.r_2.get_with_delay(335),
            self.r_3.get_with_delay(121),
        ]
    }
}

/// The tap lines of a plate reverberator's output stage.
///
/// Each channel records three signals of its half of the tank. Each output
/// is made from seven taps at fixed distances, across both channels.
#[derive(Debug)]
pub struct OutputTaps<T> {
    l_1: DelayLine<T>,
    l_2: DelayLine<T>,
    l_3: DelayLine<T>,
    r_1: DelayLine<T>,
    r_2: DelayLine<T>,
    r_3: DelayLine<T>,
}

impl<T> View for OutputTaps<T> {
    type V = TapsState<T>;

    closed spec fn view(&self) -> TapsState<T> {
        TapsState {
            l_1: self.l_1@,
            l_2: self.l_2@,
            l_3: self.l_3@,
            r_1: self.r_1@,
            r_2: self.r_2@,
            r_3: self.r_3@,
        }
    }
}

impl<T: Copy> Clone for OutputTaps<T> {
    /// Tap lines of their own with the same contents.
    fn clone(&self) -> (copy: Self)
        ensures
            copy@ == self@,
    {
        OutputTaps {
            l_1: self.l_1.clone(),
            l_2: self.l_2.clone(),
            l_3: self.l_3.clone(),
            r_1: self.r_1.clone(),
            r_2: self.r_2.clone(),
            r_3: self.r_3.clone(),
        }
    }
}

impl<T: Copy> OutputTaps<T> {
    /// Makes silent tap lines for a sample rate, each a quarter of a second
    /// long. A rate too low for one slot is refused.
    pub fn new(sample_rate: usize, silence: T) -> (made: Result<Self, ConfigError>)
        ensures
            match made {
                Ok(taps) => sample_rate >= 4 && taps@.wf() && taps@ == TapsState::fresh(
                    sample_rate as int,
                    silence,
                ),
                Err(error) => sample_rate < 4 && error == ConfigError::ZeroCapacity,
            },
    {
        let capacity = sample_rate / 4;
        if capacity == 0 {
            return Err(ConfigError::ZeroCapacity);
        }
        let l_1 = fresh_line(capacity, silence);
        let l_2 = fresh_line(capacity, silence);
        let l_3 = fresh_line(capacity, silence);
        let r_1 = fresh_line(capacity, silence);
        let r_2 = fresh_line(capacity, silence);
        let r_3 = fresh_line(capacity, silence);
        Ok(OutputTaps { l_1, l_2, l_3, r_1, r_2, r_3 })
    }

    /// Records one sample per tap line: for each channel the signal after
    /// its first long delay, the signal inside its second diffusor, and the
    /// signal after that diffusor.
    pub fn record(&mut self, left: (T, T, T), right: (T, T, T))
        ensures
            final(self)@.wf(),
            final(self)@ == old(self)@.record(left, right),
    {
        self.l_1.insert(left.0);
        self.l_2.insert(left.1);
        self.l_3.insert(left.2);
        self.r_1.insert(right.0);
        self.r_2.insert(right.1);
        self.r_3.insert(right.2);
    }

    /// Reads the seven taps that feed the left output.
    pub fn left(&self) -> (taps: [T; 7])
        ensures
            taps@ == self@.left(),
    {
        [
            self.r_1.get_with_delay(266),
            self.r_1.get_with_delay(2974),
            self.r_2.get_with_delay(1913),
            self.r_3.get_with_delay(1996),
            self.l_1.get_with_delay(1990),
            self.l_2.get_with_delay(187),
            self.l_3.get_with_delay(1066),
        ]
    }

    /// Reads the seven taps that feed the right output.
    pub fn right(&self) -> (taps: [T; 7])
        ensures
            taps@ == self@.right(),
    {
        [
            self.l_1.get_with_delay(353),
            self.l_1.get_with_delay(3627),
            self.l_2.get_with_delay(1228),
            self.l_3.get_with_delay(2673),
            self.r_1.get_with_delay(2111),
            self.r_2.get_with_delay(335),
            self.r_3.get_with_delay(121),
        ]
    }
}

/// Inserting samples one by one stores them round the ring from the cursor
/// on, and moves the cursor by their number.
pub proof fn lemma_insert_all_wraps<T>(line: LineState<T>, inputs: Seq<T>)
    requires
        line.wf(),
    ensures
        line.insert_all(inputs) == (LineState {
            buffer: written(line.buffer, line.write_index, inputs),
            write_index: (line.write_index + inputs.len()) % line.capacity(),
            ..line
        }),
        line.insert_all(inputs).wf(),
    decreases inputs.len(),
{
    let capacity = line.capacity();
    if inputs.len() == 0 {
        lemma_small_mod(line.write_index as nat, capacity as nat);
    } else {
        let before = inputs.drop_last();
        lemma_insert_all_wraps(line, before);
        lemma_written(line.buffer, line.write_index, before);
        lemma_forward_adds(line.write_index, before.len() as int, capacity);
        lemma_written(line.buffer, line.write_index, inputs);
        assert(0 <= (line.write_index + inputs.len()) % capacity < capacity) by (nonlinear_arith)
            requires
                capacity > 0,
        ;
    }
}

/// A tap at `delay` reads what was inserted `delay` inserts ago: once
/// `inputs` are inserted, the tap at any delay from 1 up to their number
/// and the capacity is the `delay`-th input from the end.
pub proof fn lemma_tap_reads_delayed_input<T>(line: LineState<T>, inputs: Seq<T>, delay: int)
    requires
        line.wf(),
        1 <= delay <= inputs.len(),
        delay <= line.capacity(),
    ensures
        line.insert_all(inputs).get_with_delay(delay) == inputs[inputs.len() - delay],
{
    lemma_insert_all_wraps(line, inputs);
    lemma_written(line.buffer, line.write_index, inputs);
    lemma_tap_after_writes(line.buffer, line.write_index, inputs, delay);
}

/// A tap at delay zero reads a full turn back: the slot that the next
/// insert overwrites.
pub proof fn lemma_tap_at_zero_is_full_turn<T>(line: LineState<T>)
    requires
        line.wf(),
    ensures
        line.get_with_delay(0) == line.get_with_delay(line.capacity()),
        line.get_with_delay(0) == line.buffer[line.write_index],
{
    let capacity = line.capacity();
    lemma_small_mod(line.write_index as nat, capacity as nat);
    lemma_fundamental_div_mod_converse_mod(
        line.write_index - capacity,
        capacity,
        -1,
        line.write_index,
    );
}

/// A delay line delays: fed `inputs` one per call from silence, `process`
/// returns silence for the first `reach` calls and from then on the input
/// of `reach` calls earlier.
pub proof fn lemma_process_delays<T>(max_delay: int, silence: T, delay: int, inputs: Seq<T>)
    requires
        0 < max_delay,
        0 <= delay,
    ensures
        ({
            let line = LineState::fresh(max_delay, silence).with_delay(delay);
            forall|k: int|
                0 <= k < inputs.len() ==> #[trigger] line.outputs(inputs)[k] == if k
                    < line.reach() {
                    silence
                } else {
                    inputs[k - line.reach()]
                }
        }),
{
    let line = LineState::fresh(max_delay, silence).with_delay(delay);
    assert(0 <= delay % max_delay < max_delay) by (nonlinear_arith)
        requires
            max_delay > 0,
    ;
    let reach = line.reach();
    assert forall|k: int| 0 <= k < inputs.len() implies #[trigger] line.outputs(inputs)[k] == if k
        < reach {
        silence
    } else {
        inputs[k - reach]
    } by {
        let fed = inputs.take(k);
        lemma_insert_all_wraps(line, fed);
        lemma_written(line.buffer, 0, fed);
        let now = line.insert_all(fed);
        assert(now.capacity() == max_delay);
        assert(now.delay == line.delay);
        if line.delay == 0 {
            lemma_tap_at_zero_is_full_turn(now);
        }
        assert(now.get() == now.get_with_delay(reach));
        if k < reach {
            lemma_written_untouched(line.buffer, 0, fed);
            lemma_small_mod(k as nat, max_delay as nat);
            lemma_fundamental_div_mod_converse_mod(k - reach, max_delay, -1, k - reach + max_delay);
            lemma_small_mod((k - reach + max_delay) as nat, max_delay as nat);
            let slot = k - reach + max_delay;
            assert(now.buffer[(0 + slot) % max_delay] == line.buffer[(0 + slot) % max_delay]);
            assert(now.get_with_delay(reach) == now.buffer[slot]);
        } else {
            lemma_tap_reads_delayed_input(line, fed, reach);
        }
    }
}

} // verus!

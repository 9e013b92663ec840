use crate::error::ConfigError;
use crate::ring::filled;
use crate::ring::index_back;
use crate::ring::lemma_forward_adds;
use crate::ring::lemma_tap_after_writes;
use crate::ring::lemma_written;
use crate::ring::silent;
use crate::ring::step_back;
use crate::ring::written;
use vstd::arithmetic::div_mod::lemma_add_mod_noop;
use vstd::arithmetic::div_mod::lemma_fundamental_div_mod_converse_mod;
use vstd::arithmetic::div_mod::lemma_small_mod;
use vstd::prelude::*;
use vstd::set_lib::lemma_int_range;
use vstd::set_lib::lemma_set_subset_finite;
use vstd::set_lib::lemma_subset_equality;
use vstd::set_lib::set_int_range;
use vstd::slice::slice_to_vec;

verus! {

/// A relocation of a cursor, `Jump(from, to)`: a cursor that stands on
/// `from` moves to `to` where it would otherwise step to the next slot.
/// Both ends are inclusive: with `Jump(10, 100)` the slots are visited in
/// the order 8, 9, 10, 100.
#[derive(Clone, Copy, Debug)]
pub struct Jump(pub usize, pub usize);

/// How a tap between two stored samples is resolved.
#[derive(Clone, Copy, Debug)]
pub enum DelayInterpolationMode {
    /// The stored sample at the whole-sample delay.
    Nearest,
    /// A blend of that sample and its older neighbour.
    Linear,
}

/// Where a cursor on `index` is sent by `jumps`: the destination of the
/// first jump that starts at `index`, if there is one.
pub open spec fn jump_target(jumps: Seq<Jump>, index: int) -> Option<int>
    decreases jumps.len(),
{
    if jumps.len() == 0 {
        None
    } else if jumps[0].0 == index {
        Some(jumps[0].1 as int)
    } else {
        jump_target(jumps.drop_first(), index)
    }
}

/// The slot a cursor visits after `index`.
pub open spec fn next_index(jumps: Seq<Jump>, index: int) -> int {
    match jump_target(jumps, index) {
        Some(to) => to,
        None => index + 1,
    }
}

/// A jump set keeps a cursor inside a buffer of `capacity` slots: every
/// destination is a slot, and the last slot has a jump, so that no step
/// runs off the end.
pub open spec fn jumps_fit(jumps: Seq<Jump>, capacity: int) -> bool {
    &&& forall|i: int| 0 <= i < jumps.len() ==> (#[trigger] jumps[i]).1 < capacity
    &&& jump_target(jumps, capacity - 1).is_some()
}

/// Plain wraparound: from the last slot back to the first.
pub open spec fn default_jumps(capacity: int) -> Seq<Jump> {
    seq![Jump((capacity - 1) as usize, 0)]
}

/// The jump set that a cursor keeps when its buffer gets `capacity` slots:
/// its own where that still fits, plain wraparound otherwise.
pub open spec fn kept_jumps(jumps: Seq<Jump>, capacity: int) -> Seq<Jump> {
    if jumps_fit(jumps, capacity) {
        jumps
    } else {
        default_jumps(capacity)
    }
}

/// A jump that `jump_target` reports is one of the set's destinations.
pub proof fn lemma_jump_target_is_destination(jumps: Seq<Jump>, index: int)
    requires
        jump_target(jumps, index).is_some(),
    ensures
        exists|i: int|
            0 <= i < jumps.len() && jumps[i].0 == index && #[trigger] jumps[i].1
                == jump_target(jumps, index).unwrap(),
    decreases jumps.len(),
{
    if jumps[0].0 == index {
        assert(jumps[0].1 == jump_target(jumps, index).unwrap());
    } else {
        let rest = jumps.drop_first();
        lemma_jump_target_is_destination(rest, index);
        let i = choose|i: int|
            0 <= i < rest.len() && rest[i].0 == index && #[trigger] rest[i].1 == jump_target(
                rest,
                index,
            ).unwrap();
        assert(jumps[i + 1] == rest[i]);
        assert(jumps[i + 1].1 == jump_target(jumps, index).unwrap());
    }
}

/// Under a fitting jump set a cursor never leaves the buffer.
pub proof fn lemma_next_index_in_range(jumps: Seq<Jump>, index: int, capacity: int)
    requires
        jumps_fit(jumps, capacity),
        0 <= index < capacity,
    ensures
        0 <= next_index(jumps, index) < capacity,
{
    if jump_target(jumps, index).is_some() {
        lemma_jump_target_is_destination(jumps, index);
    }
}

/// Plain wraparound fits its buffer and steps to the next slot modulo the
/// capacity.
pub proof fn lemma_default_jumps(capacity: int, index: int)
    requires
        0 < capacity <= usize::MAX,
        0 <= index < capacity,
    ensures
        jumps_fit(default_jumps(capacity), capacity),
        next_index(default_jumps(capacity), index) == (index + 1) % capacity,
{
    let jumps = default_jumps(capacity);
    assert(jumps.drop_first().len() == 0);
    assert(jump_target(jumps.drop_first(), index).is_none());
    assert(jump_target(jumps.drop_first(), capacity - 1).is_none());
    assert(jump_target(jumps, capacity - 1) == Some(0int));
    if index == capacity - 1 {
        lemma_fundamental_div_mod_converse_mod(index + 1, capacity, 1, 0);
    } else {
        lemma_fundamental_div_mod_converse_mod(index + 1, capacity, 0, index + 1);
    }
}

/// Finds the first jump that starts at `index`.
pub fn check_jumps(index: usize, jumps: &Vec<Jump>) -> (found: Option<Jump>)
    ensures
        match found {
            Some(jump) => jump.0 == index && jump_target(jumps@, index as int) == Some(
                jump.1 as int,
            ),
            None => jump_target(jumps@, index as int).is_none(),
        },
{
    let mut i: usize = 0;
    proof {
        assert(jumps@.skip(0) =~= jumps@);
    }
    while i < jumps.len()
        invariant
            i <= jumps.len(),
            jump_target(jumps@, index as int) == jump_target(jumps@.skip(i as int), index as int),
        decreases jumps.len() - i,
    {
        let jump = jumps[i];
        proof {
            assert(jumps@.skip(i as int).drop_first() =~= jumps@.skip(i as int + 1));
        }
        if jump.0 == index {
            return Some(jump);
        }
        i += 1;
    }
    None
}

/// No jump starts before the first slot.
pub proof fn lemma_no_jump_from_outside(jumps: Seq<Jump>, index: int)
    requires
        index < 0,
    ensures
        jump_target(jumps, index).is_none(),
    decreases jumps.len(),
{
    if jumps.len() > 0 {
        lemma_no_jump_from_outside(jumps.drop_first(), index);
    }
}

/// Decides whether a jump set keeps a cursor inside `capacity` slots.
/// Nothing fits a buffer without slots.
pub fn jumps_fit_capacity(jumps: &Vec<Jump>, capacity: usize) -> (fits: bool)
    ensures
        fits == jumps_fit(jumps@, capacity as int),
{
    if capacity == 0 {
        proof {
            lemma_no_jump_from_outside(jumps@, -1);
        }
        return false;
    }
    let mut i: usize = 0;
    while i < jumps.len()
        invariant
            i <= jumps.len(),
            forall|k: int| 0 <= k < i ==> (#[trigger] jumps@[k]).1 < capacity,
        decreases jumps.len() - i,
    {
        if jumps[i].1 >= capacity {
            return false;
        }
        i += 1;
    }
    check_jumps(capacity - 1, jumps).is_some()
}

/// Gives the jump set that a cursor keeps for a buffer of `capacity` slots.
fn keep_jumps(jumps: &Vec<Jump>, capacity: usize) -> (kept: Vec<Jump>)
    requires
        capacity > 0,
    ensures
        kept@ == kept_jumps(jumps@, capacity as int),
        jumps_fit(kept@, capacity as int),
{
    if jumps_fit_capacity(jumps, capacity) {
        slice_to_vec(jumps.as_slice())
    } else {
        let mut kept: Vec<Jump> = Vec::new();
        kept.push(Jump(capacity - 1, 0));
        proof {
            lemma_default_jumps(capacity as int, 0);
            assert(kept@ =~= default_jumps(capacity as int));
        }
        kept
    }
}

/// What a delay engine holds, as plain mathematics.
pub struct EngineState<T> {
    /// The stored samples, slot by slot.
    pub buffer: Seq<T>,
    /// The sample that stands for silence.
    pub silence: T,
    /// The delay in whole samples.
    pub delay: int,
    /// The jumps that the read cursor follows.
    pub read_jumps: Seq<Jump>,
    /// The jumps that the write cursor follows.
    pub write_jumps: Seq<Jump>,
    /// The slot that the next write fills.
    pub write_head: int,
    /// The slot that the next pop reads.
    pub read_head: int,
}

impl<T> EngineState<T> {
    /// The number of slots.
    pub open spec fn capacity(self) -> int {
        self.buffer.len() as int
    }

    /// Both cursors stand on slots, and no step can take them off the buffer.
    pub open spec fn wf(self) -> bool {
        &&& self.capacity() > 0
        &&& 0 <= self.write_head < self.capacity()
        &&& 0 <= self.read_head < self.capacity()
        &&& 0 <= self.delay
        &&& jumps_fit(self.read_jumps, self.capacity())
        &&& jumps_fit(self.write_jumps, self.capacity())
    }

    /// A silent engine of `capacity` slots with plain wraparound, both
    /// cursors on the first slot and no delay.
    pub open spec fn fresh(capacity: int, silence: T) -> Self {
        EngineState {
            buffer: silent(capacity, silence),
            silence,
            delay: 0,
            read_jumps: default_jumps(capacity),
            write_jumps: default_jumps(capacity),
            write_head: 0,
            read_head: 0,
        }
    }

    /// The sample under the read cursor.
    pub open spec fn front(self) -> T {
        self.buffer[self.read_head]
    }

    /// The engine after one pop: the read cursor has moved on.
    pub open spec fn pop(self) -> Self {
        EngineState { read_head: next_index(self.read_jumps, self.read_head), ..self }
    }

    /// The engine after `sample` was written: it fills the slot under the
    /// write cursor, and the write cursor has moved on.
    pub open spec fn write(self, sample: T) -> Self {
        EngineState {
            buffer: self.buffer.update(self.write_head, sample),
            write_head: next_index(self.write_jumps, self.write_head),
            ..self
        }
    }

    /// The sample that lies `delay` slots behind the write cursor.
    pub open spec fn tap(self, delay: int) -> T {
        self.buffer[index_back(self.write_head, delay, self.capacity())]
    }

    /// The older neighbour of `tap(delay)`: the slot just before it.
    pub open spec fn tap_before(self, delay: int) -> T {
        self.buffer[index_back(
            index_back(self.write_head, delay, self.capacity()),
            1,
            self.capacity(),
        )]
    }

    /// The engine with a delay of `delay` samples: the read cursor stands
    /// that many slots behind the write cursor.
    pub open spec fn with_delay(self, delay: int) -> Self {
        EngineState {
            delay,
            read_head: index_back(self.write_head, delay, self.capacity()),
            ..self
        }
    }

    /// The engine with every sample silenced and the cursors in place.
    pub open spec fn cleared(self) -> Self {
        EngineState { buffer: silent(self.capacity(), self.silence), ..self }
    }

    /// The engine with `capacity` silent slots and both cursors wrapped
    /// into them.
    pub open spec fn resized(self, capacity: int) -> Self {
        EngineState {
            buffer: silent(capacity, self.silence),
            write_head: self.write_head % capacity,
            read_head: self.read_head % capacity,
            read_jumps: kept_jumps(self.read_jumps, capacity),
            write_jumps: kept_jumps(self.write_jumps, capacity),
            ..self
        }
    }

    /// The engine after `samples` were written one by one.
    pub open spec fn write_all(self, samples: Seq<T>) -> Self
        decreases samples.len(),
    {
        if samples.len() == 0 {
            self
        } else {
            self.write_all(samples.drop_last()).write(samples.last())
        }
    }

    /// The engine after `count` pops.
    pub open spec fn pop_many(self, count: nat) -> Self
        decreases count,
    {
        if count == 0 {
            self
        } else {
            self.pop_many((count - 1) as nat).pop()
        }
    }

    /// The slots that `count` pops read, in the order they are read.
    pub open spec fn visits(self, count: nat) -> Seq<int> {
        Seq::new(count, |k: int| self.pop_many(k as nat).read_head)
    }

    /// The samples that `count` pops return, in the order they come.
    pub open spec fn popped(self, count: nat) -> Seq<T> {
        Seq::new(count, |k: int| self.pop_many(k as nat).front())
    }
}

/// A single-channel ring buffer with a read cursor and a write cursor.
///
/// Each cursor steps from slot to slot and follows its own jump set, so
/// that one buffer can be walked as several banks. A delay places the read
/// cursor behind the write cursor, and a tap reads behind the write cursor
/// without moving anything.
pub struct DelayEngine<T> {
    buffer: Vec<T>,
    silence: T,
    delay_samples: usize,
    read_jumps: Vec<Jump>,
    write_jumps: Vec<Jump>,
    write_head: usize,
    read_head: usize,
}

impl<T> View for DelayEngine<T> {
    type V = EngineState<T>;

    closed spec fn view(&self) -> EngineState<T> {
        EngineState {
            buffer: self.buffer@,
            silence: self.silence,
            delay: self.delay_samples as int,
            read_jumps: self.read_jumps@,
            write_jumps: self.write_jumps@,
            write_head: self.write_head as int,
            read_head: self.read_head as int,
        }
    }
}

impl<T> DelayEngine<T> {
    #[verifier::type_invariant]
    closed spec fn inv(&self) -> bool {
        self@.wf()
    }
}

impl<T: Copy> DelayEngine<T> {
    /// Makes a silent engine of `size` slots. `size` is the most that the
    /// engine can delay by; an engine without slots is refused.
    pub fn new(size: usize, silence: T) -> (made: Result<Self, ConfigError>)
        ensures
            match made {
                Ok(engine) => size > 0 && engine@.wf() && engine@ == EngineState::fresh(
                    size as int,
                    silence,
                ),
                Err(error) => size == 0 && error == ConfigError::ZeroCapacity,
            },
    {
        if size == 0 {
            return Err(ConfigError::ZeroCapacity);
        }
        let mut read_jumps: Vec<Jump> = Vec::new();
        read_jumps.push(Jump(size - 1, 0));
        let mut write_jumps: Vec<Jump> = Vec::new();
        write_jumps.push(Jump(size - 1, 0));
        proof {
            lemma_default_jumps(size as int, 0);
            assert(read_jumps@ =~= default_jumps(size as int));
            assert(write_jumps@ =~= default_jumps(size as int));
        }
        Ok(
            DelayEngine {
                buffer: filled(size, silence),
                silence,
                delay_samples: 0,
                read_jumps,
                write_jumps,
                write_head: 0,
                read_head: 0,
            },
        )
    }

    /// Returns the sample under the read cursor and moves the cursor on:
    /// to the destination of its jump from that slot, or to the next slot.
    pub fn pop_sample(&mut self) -> (sample: T)
        ensures
            final(self)@.wf(),
            sample == old(self)@.front(),
            final(self)@ == old(self)@.pop(),
    {
        proof {
            use_type_invariant(&*self);
        }
        let sample = self.buffer[self.read_head];
        proof {
            lemma_next_index_in_range(self.read_jumps@, self.read_head as int, self.buffer.len() as int);
        }
        match check_jumps(self.read_head, &self.read_jumps) {
            Some(jump) => {
                self.read_head = jump.1;
            },
            None => {
                self.read_head = self.read_head + 1;
            },
        }
        sample
    }

    /// Stores `sample` under the write cursor and moves the cursor on: to
    /// the destination of its jump from that slot, or to the next slot.
    pub fn write_sample(&mut self, sample: T)
        ensures
            final(self)@.wf(),
            final(self)@ == old(self)@.write(sample),
    {
        proof {
            use_type_invariant(&*self);
            lemma_next_index_in_range(
                self.write_jumps@,
                self.write_head as int,
                self.buffer.len() as int,
            );
        }
        self.buffer[self.write_head] = sample;
        match check_jumps(self.write_head, &self.write_jumps) {
            Some(jump) => {
                self.write_head = jump.1;
            },
            None => {
                self.write_head = self.write_head + 1;
            },
        }
    }

    /// Reads the sample `delay` slots behind the write cursor. Nothing
    /// moves. A delay beyond the capacity counts modulo the capacity.
    pub fn tap(&self, delay: usize) -> (sample: T)
        ensures
            sample == self@.tap(delay as int),
    {
        proof {
            use_type_invariant(self);
        }
        let slot = step_back(self.write_head, delay, self.buffer.len());
        self.buffer[slot]
    }

    /// Reads the engine at its delay, without moving a cursor.
    ///
    /// `Nearest` gives the stored sample at the whole-sample delay.
    /// `Linear` hands that sample and its older neighbour to `blend`, as
    /// `blend(older, newer)`, and gives what `blend` returns: the weights
    /// are the caller's.
    pub fn interpolate_sample<F: FnOnce(T, T) -> T>(
        &self,
        interpolation_mode: DelayInterpolationMode,
        blend: F,
    ) -> (sample: T)
        requires
            interpolation_mode is Linear ==> call_requires(
                blend,
                (self@.tap_before(self@.delay), self@.tap(self@.delay)),
            ),
        ensures
            interpolation_mode is Nearest ==> sample == self@.tap(self@.delay),
            interpolation_mode is Linear ==> call_ensures(
                blend,
                (self@.tap_before(self@.delay), self@.tap(self@.delay)),
                sample,
            ),
    {
        proof {
            use_type_invariant(self);
        }
        let upper_index = step_back(self.write_head, self.delay_samples, self.buffer.len());
        match interpolation_mode {
            DelayInterpolationMode::Nearest => self.buffer[upper_index],
            DelayInterpolationMode::Linear => {
                let lower_index = step_back(upper_index, 1, self.buffer.len());
                let lower_sample = self.buffer[lower_index];
                let upper_sample = self.buffer[upper_index];
                blend(lower_sample, upper_sample)
            },
        }
    }

    /// The stored samples, slot by slot.
    pub fn get_buffer_ptr(&self) -> (samples: &[T])
        ensures
            samples@ == self@.buffer,
    {
        self.buffer.as_slice()
    }

    /// Sets the delay, in whole samples: the read cursor goes to the slot
    /// that many steps behind the write cursor, so that a longer delay
    /// puts more samples between a write and the pop that returns it. A
    /// delay beyond the capacity counts modulo the capacity.
    pub fn set_delay_amount(&mut self, delay_samples: usize)
        ensures
            final(self)@.wf(),
            final(self)@ == old(self)@.with_delay(delay_samples as int),
    {
        proof {
            use_type_invariant(&*self);
        }
        self.read_head = step_back(self.write_head, delay_samples, self.buffer.len());
        self.delay_samples = delay_samples;
    }

    /// Gives the buffer `size` slots, all silent, and wraps both cursors
    /// into them. A cursor keeps its jump set where that still fits the
    /// new size and gets plain wraparound otherwise. A size of zero is
    /// refused and changes nothing.
    pub fn set_buffer_size(&mut self, size: usize) -> (done: Result<(), ConfigError>)
        ensures
            final(self)@.wf(),
            match done {
                Ok(_) => size > 0 && final(self)@ == old(self)@.resized(size as int),
                Err(error) => size == 0 && error == ConfigError::ZeroCapacity && final(self)@
                    == old(self)@,
            },
    {
        proof {
            use_type_invariant(&*self);
        }
        if size == 0 {
            return Err(ConfigError::ZeroCapacity);
        }
        let read_jumps = keep_jumps(&self.read_jumps, size);
        let write_jumps = keep_jumps(&self.write_jumps, size);
        *self = DelayEngine {
            buffer: filled(size, self.silence),
            silence: self.silence,
            delay_samples: self.delay_samples,
            read_jumps,
            write_jumps,
            write_head: self.write_head % size,
            read_head: self.read_head % size,
        };
        Ok(())
    }

    /// Replaces the jump set of the read cursor. A set that could take the
    /// cursor off the buffer is refused and changes nothing; whether the
    /// set visits every slot is the caller's concern.
    pub fn set_raw_read_jumps(&mut self, jumps: &[Jump]) -> (done: Result<(), ConfigError>)
        ensures
            final(self)@.wf(),
            match done {
                Ok(_) => jumps_fit(jumps@, old(self)@.capacity()) && final(self)@ == (EngineState {
                    read_jumps: jumps@,
                    ..old(self)@
                }),
                Err(error) => !jumps_fit(jumps@, old(self)@.capacity()) && error
                    == ConfigError::InvalidJumps && final(self)@ == old(self)@,
            },
    {
        proof {
            use_type_invariant(&*self);
        }
        let owned = slice_to_vec(jumps);
        if !jumps_fit_capacity(&owned, self.buffer.len()) {
            return Err(ConfigError::InvalidJumps);
        }
        self.read_jumps = owned;
        Ok(())
    }

    /// Silences every slot. The cursors stay where they are.
    pub fn reset(&mut self)
        ensures
            final(self)@.wf(),
            final(self)@ == old(self)@.cleared(),
    {
        proof {
            use_type_invariant(&*self);
        }
        let mut i: usize = 0;
        while i < self.buffer.len()
            invariant
                i <= self.buffer.len(),
                self@ == (EngineState { buffer: self@.buffer, ..old(self)@ }),
                self@.buffer.len() == old(self)@.buffer.len(),
                self@.wf(),
                forall|k: int| 0 <= k < i ==> self@.buffer[k] == self@.silence,
            decreases self.buffer.len() - i,
        {
            self.buffer[i] = self.silence;
            i += 1;
        }
        assert(self@.buffer =~= silent(old(self)@.capacity(), old(self)@.silence));
    }

    /// The slot that the next pop reads.
    pub fn read_head(&self) -> (head: usize)
        ensures
            head == self@.read_head,
            self@.wf(),
    {
        proof {
            use_type_invariant(self);
        }
        self.read_head
    }

    /// The slot that the next write fills.
    pub fn write_head(&self) -> (head: usize)
        ensures
            head == self@.write_head,
            self@.wf(),
    {
        proof {
            use_type_invariant(self);
        }
        self.write_head
    }

    /// The delay in whole samples.
    pub fn delay_samples(&self) -> (delay: usize)
        ensures
            delay == self@.delay,
            self@.wf(),
    {
        proof {
            use_type_invariant(self);
        }
        self.delay_samples
    }
}

/// With plain wraparound, writing samples one by one stores them round the
/// ring from the write cursor on, and moves that cursor by their number.
pub proof fn lemma_write_all_wraps<T>(state: EngineState<T>, samples: Seq<T>)
    requires
        state.wf(),
        state.capacity() <= usize::MAX,
        state.write_jumps == default_jumps(state.capacity()),
    ensures
        state.write_all(samples) == (EngineState {
            buffer: written(state.buffer, state.write_head, samples),
            write_head: (state.write_head + samples.len()) % state.capacity(),
            ..state
        }),
        state.write_all(samples).wf(),
    decreases samples.len(),
{
    let capacity = state.capacity();
    if samples.len() == 0 {
        lemma_small_mod(state.write_head as nat, capacity as nat);
    } else {
        let before = samples.drop_last();
        lemma_write_all_wraps(state, before);
        let mid = state.write_all(before);
        lemma_written(state.buffer, state.write_head, before);
        lemma_default_jumps(capacity, mid.write_head);
        lemma_forward_adds(state.write_head, before.len() as int, capacity);
        lemma_written(state.buffer, state.write_head, samples);
    }
}

/// With plain wraparound, `count` pops move the read cursor `count` slots
/// round the ring and change nothing else.
pub proof fn lemma_pop_many_wraps<T>(state: EngineState<T>, count: nat)
    requires
        state.wf(),
        state.capacity() <= usize::MAX,
        state.read_jumps == default_jumps(state.capacity()),
    ensures
        state.pop_many(count) == (EngineState {
            read_head: (state.read_head + count) % state.capacity(),
            ..state
        }),
        state.pop_many(count).wf(),
    decreases count,
{
    let capacity = state.capacity();
    if count == 0 {
        lemma_small_mod(state.read_head as nat, capacity as nat);
    } else {
        lemma_pop_many_wraps(state, (count - 1) as nat);
        let mid = state.pop_many((count - 1) as nat);
        lemma_default_jumps(capacity, mid.read_head);
        lemma_forward_adds(state.read_head, count - 1, capacity);
    }
}

/// Pops move the read cursor and nothing else, and never off the buffer.
pub proof fn lemma_pop_many_moves_read_cursor<T>(state: EngineState<T>, count: nat)
    requires
        state.wf(),
    ensures
        state.pop_many(count) == (EngineState {
            read_head: state.pop_many(count).read_head,
            ..state
        }),
        state.pop_many(count).wf(),
    decreases count,
{
    if count > 0 {
        lemma_pop_many_moves_read_cursor(state, (count - 1) as nat);
        let mid = state.pop_many((count - 1) as nat);
        lemma_next_index_in_range(mid.read_jumps, mid.read_head, mid.capacity());
    }
}

/// A traversal repeats: once the read cursor is back on the slot it
/// started from, after `period` pops, it visits the same slots in the same
/// order again, whatever the jump set.
pub proof fn lemma_traversal_repeats<T>(state: EngineState<T>, period: nat, count: nat)
    requires
        state.wf(),
        state.pop_many(period).read_head == state.read_head,
    ensures
        state.pop_many(count + period).read_head == state.pop_many(count).read_head,
        state.pop_many(count + period).front() == state.pop_many(count).front(),
    decreases count,
{
    lemma_pop_many_moves_read_cursor(state, count);
    lemma_pop_many_moves_read_cursor(state, count + period);
    if count > 0 {
        lemma_traversal_repeats(state, period, (count - 1) as nat);
        lemma_pop_many_moves_read_cursor(state, (count - 1) as nat);
        lemma_pop_many_moves_read_cursor(state, (count - 1 + period) as nat);
        assert(state.pop_many(count + period) == state.pop_many(
            (count - 1 + period) as nat,
        ).pop());
    }
}

/// Each slot once per cycle: where as many pops as the buffer has slots
/// read no slot twice, they read every slot.
pub proof fn lemma_cycle_visits_every_slot<T>(state: EngineState<T>)
    requires
        state.wf(),
        state.visits(state.capacity() as nat).no_duplicates(),
    ensures
        forall|slot: int|
            0 <= slot < state.capacity() ==> #[trigger] state.visits(
                state.capacity() as nat,
            ).contains(slot),
{
    let capacity = state.capacity();
    let visited = state.visits(capacity as nat);
    let slots = set_int_range(0, capacity);
    visited.unique_seq_to_set();
    lemma_int_range(0, capacity);
    assert forall|slot: int| visited.to_set().contains(slot) implies slots.contains(slot) by {
        let k = choose|k: int| 0 <= k < visited.len() && visited[k] == slot;
        lemma_pop_many_moves_read_cursor(state, k as nat);
    }
    lemma_set_subset_finite(slots, visited.to_set());
    lemma_subset_equality(visited.to_set(), slots);
    assert forall|slot: int| 0 <= slot < capacity implies #[trigger] visited.contains(slot) by {
        assert(slots.contains(slot));
        assert(visited.to_set().contains(slot));
    }
}

/// A full cycle returns what was written: with plain wraparound and both
/// cursors on one slot, after at most `capacity` writes as many pops return
/// exactly the samples written, in the order they were written.
pub proof fn lemma_cycle_returns_written_samples<T>(state: EngineState<T>, samples: Seq<T>)
    requires
        state.wf(),
        state.capacity() <= usize::MAX,
        state.read_jumps == default_jumps(state.capacity()),
        state.write_jumps == default_jumps(state.capacity()),
        state.read_head == state.write_head,
        samples.len() <= state.capacity(),
    ensures
        state.write_all(samples).popped(samples.len()) == samples,
        state.write_all(samples).pop_many(samples.len()).read_head == state.write_all(
            samples,
        ).write_head,
{
    let capacity = state.capacity();
    lemma_write_all_wraps(state, samples);
    let full = state.write_all(samples);
    lemma_written(state.buffer, state.write_head, samples);
    assert forall|k: int| 0 <= k < samples.len() implies full.popped(samples.len())[k]
        == samples[k] by {
        lemma_pop_many_wraps(full, k as nat);
        assert(full.buffer[(state.write_head + k) % capacity] == samples[k]);
    }
    assert(full.popped(samples.len()) =~= samples);
    lemma_pop_many_wraps(full, samples.len());
}

/// Samples written into a fresh engine come back in the order they were
/// written: after at most `capacity` writes, as many pops return exactly
/// what was written. Where the buffer was filled, the pop after those
/// starts over with the first sample.
pub proof fn lemma_written_samples_pop_in_order<T>(capacity: int, silence: T, samples: Seq<T>)
    requires
        0 < capacity <= usize::MAX,
        samples.len() <= capacity,
    ensures
        EngineState::fresh(capacity, silence).write_all(samples).popped(samples.len())
            == samples,
        samples.len() == capacity ==> EngineState::fresh(capacity, silence).write_all(
            samples,
        ).pop_many(samples.len()).front() == samples[0],
{
    let fresh = EngineState::fresh(capacity, silence);
    lemma_default_jumps(capacity, 0);
    lemma_cycle_returns_written_samples(fresh, samples);
    if samples.len() == capacity {
        lemma_write_all_wraps(fresh, samples);
        let full = fresh.write_all(samples);
        lemma_written(fresh.buffer, 0, samples);
        lemma_pop_many_wraps(full, samples.len());
        lemma_fundamental_div_mod_converse_mod(capacity, capacity, 1, 0);
        lemma_small_mod(0, capacity as nat);
        assert(full.buffer[(0int + 0) % capacity] == samples[0]);
    }
}

/// A resized engine is silent throughout, and both of its cursors stand on
/// slots of the new buffer.
pub proof fn lemma_resized_is_silent_and_in_range<T>(state: EngineState<T>, capacity: int)
    requires
        state.wf(),
        0 < capacity <= usize::MAX,
    ensures
        state.resized(capacity).wf(),
        state.resized(capacity).capacity() == capacity,
        forall|slot: int|
            0 <= slot < capacity ==> #[trigger] state.resized(capacity).buffer[slot]
                == state.silence,
        0 <= state.resized(capacity).read_head < capacity,
        0 <= state.resized(capacity).write_head < capacity,
{
    lemma_default_jumps(capacity, 0);
    assert(0 <= state.read_head % capacity < capacity && 0 <= state.write_head % capacity
        < capacity) by (nonlinear_arith)
        requires
            capacity > 0,
    ;
}

/// The nearest reading at a whole-sample delay is the plain tap: once the
/// delay is set, it is the sample under the read cursor, the one that the
/// next pop returns.
pub proof fn lemma_nearest_is_plain_tap<T>(state: EngineState<T>, delay: int)
    requires
        state.wf(),
        0 <= delay,
    ensures
        state.with_delay(delay).wf(),
        state.with_delay(delay).tap(state.with_delay(delay).delay) == state.with_delay(
            delay,
        ).front(),
{
    assert(0 <= (state.write_head - delay) % state.capacity() < state.capacity())
        by (nonlinear_arith)
        requires
            state.capacity() > 0,
    ;
}

/// A tap at `delay` reads what was written `delay` writes ago: with plain
/// wraparound, once `samples` are written, the tap at any delay from 1 up
/// to their number and the capacity is the `delay`-th sample from the end.
pub proof fn lemma_tap_reads_delayed_sample<T>(
    state: EngineState<T>,
    samples: Seq<T>,
    delay: int,
)
    requires
        state.wf(),
        state.capacity() <= usize::MAX,
        state.write_jumps == default_jumps(state.capacity()),
        1 <= delay <= samples.len(),
        delay <= state.capacity(),
    ensures
        state.write_all(samples).tap(delay) == samples[samples.len() - delay],
{
    lemma_write_all_wraps(state, samples);
    lemma_written(state.buffer, state.write_head, samples);
    lemma_tap_after_writes(state.buffer, state.write_head, samples, delay);
}

/// A longer delay puts more samples between a write and its read: with
/// plain wraparound and a delay of `delay` samples, below the capacity, a
/// sample written now is under the read cursor after exactly `delay` pops.
pub proof fn lemma_delay_separates_write_and_read<T>(
    state: EngineState<T>,
    delay: int,
    sample: T,
)
    requires
        state.wf(),
        state.capacity() <= usize::MAX,
        state.read_jumps == default_jumps(state.capacity()),
        0 <= delay < state.capacity(),
    ensures
        state.with_delay(delay).write(sample).pop_many(delay as nat).front() == sample,
{
    let capacity = state.capacity();
    let delayed = state.with_delay(delay);
    lemma_nearest_is_plain_tap(state, delay);
    lemma_next_index_in_range(delayed.write_jumps, delayed.write_head, capacity);
    let after = delayed.write(sample);
    lemma_pop_many_wraps(after, delay as nat);
    assert((after.read_head + delay) % capacity == state.write_head) by {
        lemma_add_mod_noop(state.write_head - delay, delay, capacity);
        lemma_small_mod(delay as nat, capacity as nat);
        lemma_small_mod(state.write_head as nat, capacity as nat);
    }
}

} // verus!

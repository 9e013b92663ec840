use vstd::arithmetic::div_mod::lemma_add_mod_noop;
use vstd::arithmetic::div_mod::lemma_fundamental_div_mod;
use vstd::arithmetic::div_mod::lemma_fundamental_div_mod_converse_mod;
use vstd::arithmetic::div_mod::lemma_mod_equivalence;
use vstd::arithmetic::div_mod::lemma_mod_twice;
use vstd::arithmetic::div_mod::lemma_small_mod;
use vstd::arithmetic::div_mod::lemma_sub_mod_noop;
use vstd::prelude::*;

verus! {

/// The slot that lies `delay` steps behind `head` on a ring of `len` slots.
pub open spec fn index_back(head: int, delay: int, len: int) -> int {
    (head - delay) % len
}

/// The slot that follows `head` on a ring of `len` slots.
pub open spec fn index_forward(head: int, len: int) -> int {
    (head + 1) % len
}

/// A ring after `samples` were stored one by one, the first at `head`, each
/// following one slot further with wraparound.
pub open spec fn written<T>(buffer: Seq<T>, head: int, samples: Seq<T>) -> Seq<T>
    decreases samples.len(),
{
    if samples.len() == 0 {
        buffer
    } else {
        written(buffer, head, samples.drop_last()).update(
            (head + samples.len() - 1) % (buffer.len() as int),
            samples.last(),
        )
    }
}

/// `count` copies of one sample.
pub open spec fn silent<T>(count: int, silence: T) -> Seq<T> {
    Seq::new(count as nat, |i: int| silence)
}

/// Storing samples never changes the size of the ring, and each of the last
/// `len` samples stored is found where it was put.
pub proof fn lemma_written<T>(buffer: Seq<T>, head: int, samples: Seq<T>)
    requires
        buffer.len() > 0,
        0 <= head < buffer.len(),
    ensures
        written(buffer, head, samples).len() == buffer.len(),
        forall|k: int|
            0 <= k < samples.len() && samples.len() - buffer.len() <= k ==> written(
                buffer,
                head,
                samples,
            )[#[trigger] ((head + k) % (buffer.len() as int))] == samples[k],
    decreases samples.len(),
{
    let len = buffer.len() as int;
    let count = samples.len() as int;
    if count > 0 {
        let before = samples.drop_last();
        lemma_written(buffer, head, before);
        let last_slot = (head + count - 1) % len;
        assert(0 <= last_slot < len) by (nonlinear_arith)
            requires
                last_slot == (head + count - 1) % len,
                len > 0,
        ;
        assert forall|k: int| 0 <= k < count && count - len <= k implies written(
            buffer,
            head,
            samples,
        )[#[trigger] ((head + k) % len)] == samples[k] by {
            if k < count - 1 {
                assert(before[k] == samples[k]);
                if (head + k) % len == last_slot {
                    lemma_mod_equivalence(head + count - 1, head + k, len);
                    lemma_small_mod((count - 1 - k) as nat, len as nat);
                    assert(false);
                }
                assert(0 <= (head + k) % len < len) by (nonlinear_arith)
                    requires
                        len > 0,
                ;
            }
        }
    }
}

/// A delay of `delay` samples reads the sample stored `delay` writes ago:
/// once `samples` are stored, the slot `delay` steps behind the write
/// cursor holds the `delay`-th sample from the end, for every delay from 1
/// up to the number of samples stored and the size of the ring.
pub proof fn lemma_tap_after_writes<T>(buffer: Seq<T>, head: int, samples: Seq<T>, delay: int)
    requires
        buffer.len() > 0,
        0 <= head < buffer.len(),
        1 <= delay <= samples.len(),
        delay <= buffer.len(),
    ensures
        written(buffer, head, samples)[index_back(
            (head + samples.len()) % (buffer.len() as int),
            delay,
            buffer.len() as int,
        )] == samples[samples.len() - delay],
{
    let len = buffer.len() as int;
    let count = samples.len() as int;
    let k = count - delay;
    lemma_written(buffer, head, samples);
    assert(((head + count) % len - delay) % len == (head + k) % len) by {
        lemma_sub_mod_noop((head + count) % len, delay, len);
        lemma_sub_mod_noop(head + count, delay, len);
        lemma_mod_twice(head + count, len);
    }
    assert(written(buffer, head, samples)[(head + k) % len] == samples[k]);
}

/// Storing at most `len` samples leaves the other slots as they were: the
/// slots that further writes would reach next are untouched.
pub proof fn lemma_written_untouched<T>(buffer: Seq<T>, head: int, samples: Seq<T>)
    requires
        buffer.len() > 0,
        0 <= head < buffer.len(),
        samples.len() <= buffer.len(),
    ensures
        forall|k: int|
            samples.len() <= k < buffer.len() ==> written(buffer, head, samples)[#[trigger] ((head
                + k) % (buffer.len() as int))] == buffer[(head + k) % (buffer.len() as int)],
    decreases samples.len(),
{
    let len = buffer.len() as int;
    let count = samples.len() as int;
    if count > 0 {
        let before = samples.drop_last();
        lemma_written_untouched(buffer, head, before);
        lemma_written(buffer, head, before);
        let last_slot = (head + count - 1) % len;
        assert forall|k: int| count <= k < len implies written(
            buffer,
            head,
            samples,
        )[#[trigger] ((head + k) % len)] == buffer[(head + k) % len] by {
            if (head + k) % len == last_slot {
                lemma_mod_equivalence(head + k, head + count - 1, len);
                lemma_small_mod((k - count + 1) as nat, len as nat);
                assert(false);
            }
            assert(0 <= (head + k) % len < len) by (nonlinear_arith)
                requires
                    len > 0,
            ;
            assert(0 <= last_slot < len) by (nonlinear_arith)
                requires
                    last_slot == (head + count - 1) % len,
                    len > 0,
            ;
        }
    }
}

/// Stepping forward `count` times from `head` arrives `count` slots further
/// round the ring.
pub proof fn lemma_forward_adds(head: int, count: int, len: int)
    requires
        len > 0,
    ensures
        index_forward((head + count) % len, len) == (head + count + 1) % len,
{
    lemma_add_mod_noop(head + count, 1, len);
    if len == 1 {
        assert(1int % 1 == 0);
    } else {
        lemma_small_mod(1, len as nat);
    }
    lemma_mod_twice(head + count, len);
    lemma_add_mod_noop((head + count) % len, 1, len);
}

/// Computes the slot `delay` steps behind `head`, for any `delay`.
pub(crate) fn step_back(head: usize, delay: usize, len: usize) -> (slot: usize)
    requires
        head < len,
    ensures
        slot == index_back(head as int, delay as int, len as int),
        slot < len,
{
    let within: usize = delay % len;
    let slot: usize = if within <= head {
        head - within
    } else {
        len - (within - head)
    };
    proof {
        let turns = delay as int / len as int;
        lemma_fundamental_div_mod(delay as int, len as int);
        if within <= head {
            assert(head - delay == (-turns) * len + slot) by (nonlinear_arith)
                requires
                    delay == len * turns + within,
                    slot == head - within,
            ;
            lemma_fundamental_div_mod_converse_mod(
                head - delay,
                len as int,
                -turns,
                slot as int,
            );
        } else {
            assert(head - delay == (-turns - 1) * len + slot) by (nonlinear_arith)
                requires
                    delay == len * turns + within,
                    slot == len - (within - head),
            ;
            lemma_fundamental_div_mod_converse_mod(
                head - delay,
                len as int,
                -turns - 1,
                slot as int,
            );
        }
    }
    slot
}

/// Computes the slot that follows `head`.
pub(crate) fn step_forward(head: usize, len: usize) -> (slot: usize)
    requires
        head < len,
    ensures
        slot == index_forward(head as int, len as int),
        slot < len,
{
    proof {
        if head + 1 == len {
            lemma_fundamental_div_mod_converse_mod(head + 1, len as int, 1, 0);
        } else {
            lemma_fundamental_div_mod_converse_mod(head + 1, len as int, 0, head + 1);
        }
    }
    if head + 1 == len {
        0
    } else {
        head + 1
    }
}

/// A buffer of `count` samples, every one of them `silence`.
pub(crate) fn filled<T: Copy>(count: usize, silence: T) -> (buffer: Vec<T>)
    ensures
        buffer@ == silent(count as int, silence),
{
    let mut buffer: Vec<T> = Vec::new();
    let mut i: usize = 0;
    while i < count
        invariant
            i <= count,
            buffer@ == silent(i as int, silence),
        decreases count - i,
    {
        buffer.push(silence);
        i += 1;
    }
    buffer
}

} // verus!

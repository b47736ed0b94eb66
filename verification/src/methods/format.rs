//! The wire format of the codec, as a function from samples to bits.
//!
//! A stream is a 64-bit starting timestamp, one block for each sample, and
//! the end marker. The first block holds its sample in full; each later one
//! holds the change of the timestamp's step and the bits in which the value
//! differs from the one before.

use vstd::prelude::*;
use vstd::arithmetic::power2::lemma2_to64;
use vstd::std_specs::bits::{
    axiom_u64_leading_zeros, axiom_u64_trailing_zeros, u64_leading_zeros, u64_trailing_zeros,
};
use vstd::wrapping::u64_specs::wrapping_sub;
use crate::methods::bits::{
    bits_of, lemma_bits_of_congruent, lemma_bits_of_len, lemma_bits_of_split,
};

verus! {

/// The bit sequence that ends a stream: the prefix `1111` of the longest
/// timestamp code, and a payload of 32 zero bits.
pub const END_MARKER: u64 = 0b1111_0000_0000_0000_0000_0000_0000_0000_0000;

/// The length of the end marker in bits.
pub const END_MARKER_LEN: u32 = 36;

/// A timestamp and the raw bits of the double measured at it.
#[derive(Clone, Copy, Debug, PartialEq, Eq, Structural)]
pub struct Sample {
    pub timestamp: u64,
    pub value_bits: u64,
}

/// What the encoder remembers from one sample to the next, and what the
/// decoder rebuilds as it reads. `leading_zeroes` and `trailing_zeroes` frame
/// the window of value bits last written in full; both are 64 until there
/// is one.
#[derive(Clone, Copy, Debug, PartialEq, Eq, Structural)]
pub struct State {
    pub time: u64,
    pub delta: u64,
    pub value_bits: u64,
    pub leading_zeroes: u32,
    pub trailing_zeroes: u32,
    pub first: bool,
}

impl State {
    /// Either no window has been written yet, or the window has room for at
    /// least one bit.
    pub open spec fn wf(self) -> bool {
        ||| self.leading_zeroes == 64 && self.trailing_zeroes == 64
        ||| self.leading_zeroes + self.trailing_zeroes < 64
    }

    /// The state of a stream that starts at `start`, before its first sample.
    pub open spec fn initial(start: u64) -> State {
        State {
            time: start,
            delta: 0,
            value_bits: 0,
            leading_zeroes: 64,
            trailing_zeroes: 64,
            first: true,
        }
    }
}

/// The change from the step `last_delta` to the step `delta`, as the signed
/// number that its low 32 bits spell.
pub open spec fn delta_of_delta(delta: u64, last_delta: u64) -> int {
    let low = (delta - last_delta) % 0x1_0000_0000;
    if low >= 0x8000_0000 {
        low - 0x1_0000_0000
    } else {
        low
    }
}

/// The code of a change of step: the shortest of five forms whose range
/// holds it, a prefix and then the change in two's complement.
#[verifier::opaque]
pub open spec fn timestamp_code(dod: int) -> Seq<bool> {
    if dod == 0 {
        seq![false]
    } else if -63 <= dod <= 64 {
        seq![true, false] + bits_of(dod, 7)
    } else if -255 <= dod <= 256 {
        seq![true, true, false] + bits_of(dod, 9)
    } else if -2047 <= dod <= 2048 {
        seq![true, true, true, false] + bits_of(dod, 12)
    } else {
        seq![true, true, true, true] + bits_of(dod, 32)
    }
}

/// Whether the bits in which a value differs from the one before lie inside
/// the window that `state` remembers.
pub open spec fn in_window(state: State, xor: u64) -> bool {
    &&& u64_leading_zeros(xor) >= state.leading_zeroes
    &&& u64_trailing_zeros(xor) >= state.trailing_zeroes
}

/// The code of a value after the one in `state`: a zero bit where nothing
/// changed; else the changed bits, either inside the remembered window or
/// with a window of their own.
#[verifier::opaque]
pub open spec fn value_code(state: State, value_bits: u64) -> Seq<bool> {
    let xor = value_bits ^ state.value_bits;
    let lz = u64_leading_zeros(xor);
    let tz = u64_trailing_zeros(xor) as int;
    if xor == 0 {
        seq![false]
    } else if in_window(state, xor) {
        seq![true, false] + bits_of(
            (xor >> (state.trailing_zeroes as u64)) as int,
            (64 - state.leading_zeroes - state.trailing_zeroes) as nat,
        )
    } else {
        seq![true, true] + bits_of(lz, 6) + bits_of(64 - lz - tz - 1, 6) + bits_of(
            (xor >> (tz as u64)) as int,
            (64 - lz - tz) as nat,
        )
    }
}

/// The state with `value_bits` in place of the value before, and with the
/// window that the code of the new value was written with.
pub open spec fn step_value(state: State, value_bits: u64) -> State {
    let xor = value_bits ^ state.value_bits;
    if xor == 0 || in_window(state, xor) {
        State { value_bits, ..state }
    } else {
        State {
            value_bits,
            leading_zeroes: u64_leading_zeros(xor) as u32,
            trailing_zeroes: u64_trailing_zeros(xor),
            ..state
        }
    }
}

/// The state after the sample `s`.
pub open spec fn step(state: State, s: Sample) -> State {
    let delta = wrapping_sub(s.timestamp, state.time);
    if state.first {
        State { time: s.timestamp, delta, value_bits: s.value_bits, first: false, ..state }
    } else {
        State { time: s.timestamp, delta, ..step_value(state, s.value_bits) }
    }
}

/// Whether the block of `s` holds all of it: the timestamp does not go back,
/// the first step fits 14 bits, and a later step differs from the one before
/// by what the longest timestamp code holds.
pub open spec fn encodable(state: State, s: Sample) -> bool {
    &&& s.timestamp >= state.time
    &&& if state.first {
        s.timestamp - state.time < 0x4000
    } else {
        -0x8000_0000 < (s.timestamp - state.time) - state.delta <= 0x8000_0000
    }
}

/// Whether the blocks of `samples`, written from `state` on, hold all of
/// them.
pub open spec fn series_encodable(state: State, samples: Seq<Sample>) -> bool
    decreases samples.len(),
{
    samples.len() == 0 || (encodable(state, samples[0]) && series_encodable(
        step(state, samples[0]),
        samples.skip(1),
    ))
}

/// The block of the first sample: a zero bit, the step from the starting
/// timestamp in 14 bits, and the value in full.
pub open spec fn first_block(state: State, s: Sample) -> Seq<bool> {
    seq![false] + bits_of(wrapping_sub(s.timestamp, state.time) as int, 14) + bits_of(
        s.value_bits as int,
        64,
    )
}

/// The block of a later sample: the code of its timestamp, then that of its
/// value.
pub open spec fn next_block(state: State, s: Sample) -> Seq<bool> {
    timestamp_code(delta_of_delta(wrapping_sub(s.timestamp, state.time), state.delta))
        + value_code(state, s.value_bits)
}

/// The block of the sample `s` written in `state`.
pub open spec fn block(state: State, s: Sample) -> Seq<bool> {
    if state.first {
        first_block(state, s)
    } else {
        next_block(state, s)
    }
}

/// The blocks of `samples`, written one after the other from `state` on.
pub open spec fn blocks(state: State, samples: Seq<Sample>) -> Seq<bool>
    decreases samples.len(),
{
    if samples.len() == 0 {
        Seq::empty()
    } else {
        block(state, samples[0]) + blocks(step(state, samples[0]), samples.skip(1))
    }
}

/// The state after all of `samples`.
pub open spec fn state_after(state: State, samples: Seq<Sample>) -> State
    decreases samples.len(),
{
    if samples.len() == 0 {
        state
    } else {
        state_after(step(state, samples[0]), samples.skip(1))
    }
}

/// The header of a stream that starts at `start`.
pub open spec fn header(start: u64) -> Seq<bool> {
    bits_of(start as int, 64)
}

/// The end marker as bits.
pub open spec fn end_marker() -> Seq<bool> {
    bits_of(END_MARKER as int, 36)
}

/// The whole stream of `samples` from the starting timestamp `start`.
pub open spec fn encoding(start: u64, samples: Seq<Sample>) -> Seq<bool> {
    header(start) + blocks(State::initial(start), samples) + end_marker()
}

/// The runs of zero bits above and below the bits set in a number leave room
/// for at least one bit.
pub proof fn lemma_zero_runs(x: u64)
    requires
        x != 0,
    ensures
        0 <= u64_leading_zeros(x),
        u64_leading_zeros(x) + u64_trailing_zeros(x) < 64,
{
    axiom_u64_leading_zeros(x);
    axiom_u64_trailing_zeros(x);
    let lz = u64_leading_zeros(x);
    let tz = u64_trailing_zeros(x);
    let top = (63 - lz) as u64;
    assert((x >> top) & 1u64 != 0u64);
    if top < tz {
        assert((x >> top) & 1u64 == 0u64);
    }
}

/// The prefixes of the timestamp and value codes, as numbers.
pub proof fn lemma_prefix_bits()
    ensures
        bits_of(0b10, 2) == seq![true, false],
        bits_of(0b110, 3) == seq![true, true, false],
        bits_of(0b1110, 4) == seq![true, true, true, false],
        bits_of(0b1111, 4) == seq![true, true, true, true],
        bits_of(0b11, 2) == seq![true, true],
        bits_of(0b111, 3) == seq![true, true, true],
{
    reveal_with_fuel(bits_of, 5);
    assert(bits_of(0b10, 2) =~= seq![true, false]);
    assert(bits_of(0b110, 3) =~= seq![true, true, false]);
    assert(bits_of(0b1110, 4) =~= seq![true, true, true, false]);
    assert(bits_of(0b1111, 4) =~= seq![true, true, true, true]);
    assert(bits_of(0b11, 2) =~= seq![true, true]);
    assert(bits_of(0b111, 3) =~= seq![true, true, true]);
}

/// The end marker is the prefix `1111` and 32 zero bits.
pub proof fn lemma_end_marker()
    ensures
        end_marker() == seq![true, true, true, true] + bits_of(0, 32),
        end_marker().len() == 36,
{
    lemma2_to64();
    lemma_prefix_bits();
    lemma_bits_of_split(END_MARKER as int, 4, 32);
    lemma_bits_of_congruent(END_MARKER as int, 0, 32);
    lemma_bits_of_len(END_MARKER as int, 36);
}

/// Writing the samples up to one and then that one is writing them all.
pub proof fn lemma_blocks_push(state: State, samples: Seq<Sample>, s: Sample)
    ensures
        blocks(state, samples.push(s)) == blocks(state, samples) + block(
            state_after(state, samples),
            s,
        ),
        state_after(state, samples.push(s)) == step(state_after(state, samples), s),
    decreases samples.len(),
{
    let all = samples.push(s);
    if samples.len() == 0 {
        assert(all.skip(1) =~= Seq::<Sample>::empty());
        assert(blocks(step(state, s), all.skip(1)) =~= Seq::<bool>::empty());
        assert(state_after(step(state, s), all.skip(1)) == step(state, s));
        assert(blocks(state, all) =~= blocks(state, samples) + block(state, s));
    } else {
        let next = step(state, samples[0]);
        lemma_blocks_push(next, samples.skip(1), s);
        assert(all.skip(1) =~= samples.skip(1).push(s));
        assert(blocks(state, all) =~= blocks(state, samples) + block(
            state_after(state, samples),
            s,
        ));
    }
}

} // verus!

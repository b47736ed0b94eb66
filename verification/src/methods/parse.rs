//! The wire format read back: a function from bits to samples, block by
//! block, that the decoder follows.

use vstd::prelude::*;
use vstd::arithmetic::power2::pow2;
use crate::methods::bits::bits_value;
use crate::methods::format::{Sample, State};

verus! {

/// Why a stream could not be decoded.
#[derive(Clone, Copy, Debug, PartialEq, Eq, Structural)]
pub enum DecodeError {
    /// The bits ran out before a block or the end marker was complete.
    ChannelExhausted,
    /// The bits spell what no encoder writes: a first block that opens with
    /// a one and is not the end marker, changed value bits inside a window
    /// where none was written yet, or a window of more than 64 bits.
    MalformedControlCode,
}

/// What reading one block gives: a sample with the state after it and the
/// bits left, or nothing at the end marker.
pub type Block = Result<Option<(Sample, State, Seq<bool>)>, DecodeError>;

/// The number that the first `n` of `bits` spell, and the bits after them.
pub open spec fn read(bits: Seq<bool>, n: nat) -> Option<(nat, Seq<bool>)> {
    if bits.len() >= n {
        Some((bits_value(bits.take(n as int)), bits.skip(n as int)))
    } else {
        None
    }
}

/// The change of step that a payload of `n` bits stands for. The range of
/// each code reaches one further up than down.
pub open spec fn signed(payload: nat, n: nat) -> int {
    if payload > pow2((n - 1) as nat) {
        payload - pow2(n)
    } else {
        payload as int
    }
}

/// `last` moved by `change`, wrapping at 64 bits.
pub open spec fn advance(last: u64, change: int) -> u64 {
    ((last + change) % 0x1_0000_0000_0000_0000) as u64
}

/// The payload of a timestamp code after a prefix of `prefix` bits. A zero
/// payload of 32 bits is the end marker.
pub open spec fn parse_change(bits: Seq<bool>, prefix: nat, n: nat) -> Result<
    Option<(int, Seq<bool>)>,
    DecodeError,
> {
    match read(bits.skip(prefix as int), n) {
        None => Err(DecodeError::ChannelExhausted),
        Some((payload, rest)) => if n == 32 && payload == 0 {
            Ok(None)
        } else {
            Ok(Some((signed(payload, n), rest)))
        },
    }
}

/// A timestamp code: the change of step and the bits left, or nothing at
/// the end marker.
#[verifier::opaque]
pub open spec fn parse_timestamp(bits: Seq<bool>) -> Result<Option<(int, Seq<bool>)>, DecodeError> {
    if bits.len() < 1 {
        Err(DecodeError::ChannelExhausted)
    } else if !bits[0] {
        Ok(Some((0, bits.skip(1))))
    } else if bits.len() < 2 {
        Err(DecodeError::ChannelExhausted)
    } else if !bits[1] {
        parse_change(bits, 2, 7)
    } else if bits.len() < 3 {
        Err(DecodeError::ChannelExhausted)
    } else if !bits[2] {
        parse_change(bits, 3, 9)
    } else if bits.len() < 4 {
        Err(DecodeError::ChannelExhausted)
    } else if !bits[3] {
        parse_change(bits, 4, 12)
    } else {
        parse_change(bits, 4, 32)
    }
}

/// The changed bits of a value inside the window that `leading` and
/// `trailing` frame: the state with the new value and that window, and the
/// bits left.
pub open spec fn parse_window(state: State, leading: u32, trailing: u32, bits: Seq<bool>) -> Result<
    (State, Seq<bool>),
    DecodeError,
> {
    match read(bits, (64 - leading - trailing) as nat) {
        None => Err(DecodeError::ChannelExhausted),
        Some((changed, rest)) => Ok(
            (
                State {
                    value_bits: state.value_bits ^ ((changed as u64) << (trailing as u64)),
                    leading_zeroes: leading,
                    trailing_zeroes: trailing,
                    ..state
                },
                rest,
            ),
        ),
    }
}

/// A value code: the state with the new value and window, and the bits left.
#[verifier::opaque]
pub open spec fn parse_value(state: State, bits: Seq<bool>) -> Result<
    (State, Seq<bool>),
    DecodeError,
> {
    if bits.len() < 1 {
        Err(DecodeError::ChannelExhausted)
    } else if !bits[0] {
        Ok((state, bits.skip(1)))
    } else if bits.len() < 2 {
        Err(DecodeError::ChannelExhausted)
    } else if !bits[1] {
        if state.leading_zeroes + state.trailing_zeroes >= 64 {
            Err(DecodeError::MalformedControlCode)
        } else {
            parse_window(state, state.leading_zeroes, state.trailing_zeroes, bits.skip(2))
        }
    } else {
        match read(bits.skip(2), 6) {
            None => Err(DecodeError::ChannelExhausted),
            Some((leading, rest)) => match read(rest, 6) {
                None => Err(DecodeError::ChannelExhausted),
                Some((less_one, rest)) => if leading + less_one + 1 > 64 {
                    Err(DecodeError::MalformedControlCode)
                } else {
                    parse_window(
                        state,
                        leading as u32,
                        (64 - leading - less_one - 1) as u32,
                        rest,
                    )
                },
            },
        }
    }
}

/// The end marker without its first bit, as a number.
pub const END_MARKER_REST: u64 = 0b111_0000_0000_0000_0000_0000_0000_0000_0000;

/// The first block of a stream, or the end marker of a stream without
/// samples.
pub open spec fn parse_first(state: State, bits: Seq<bool>) -> Block {
    if bits.len() < 1 {
        Err(DecodeError::ChannelExhausted)
    } else if bits[0] {
        match read(bits.skip(1), 35) {
            None => Err(DecodeError::ChannelExhausted),
            Some((marker, _)) => if marker == END_MARKER_REST {
                Ok(None)
            } else {
                Err(DecodeError::MalformedControlCode)
            },
        }
    } else {
        match read(bits.skip(1), 14) {
            None => Err(DecodeError::ChannelExhausted),
            Some((delta, rest)) => match read(rest, 64) {
                None => Err(DecodeError::ChannelExhausted),
                Some((value, rest)) => {
                    let time = advance(state.time, delta as int);
                    Ok(
                        Some(
                            (
                                Sample { timestamp: time, value_bits: value as u64 },
                                State {
                                    time,
                                    delta: delta as u64,
                                    value_bits: value as u64,
                                    first: false,
                                    ..state
                                },
                                rest,
                            ),
                        ),
                    )
                },
            },
        }
    }
}

/// A later block, or the end marker.
pub open spec fn parse_next(state: State, bits: Seq<bool>) -> Block {
    match parse_timestamp(bits) {
        Err(e) => Err(e),
        Ok(None) => Ok(None),
        Ok(Some((change, rest))) => {
            let delta = advance(state.delta, change);
            let time = advance(state.time, delta as int);
            match parse_value(state, rest) {
                Err(e) => Err(e),
                Ok((valued, rest)) => Ok(
                    Some(
                        (
                            Sample { timestamp: time, value_bits: valued.value_bits },
                            State { time, delta, ..valued },
                            rest,
                        ),
                    ),
                ),
            }
        },
    }
}

/// The block that `bits` start with, read in `state`.
#[verifier::opaque]
pub open spec fn parse_block(state: State, bits: Seq<bool>) -> Block {
    if state.first {
        parse_first(state, bits)
    } else {
        parse_next(state, bits)
    }
}

/// `found` put in front of the samples of `later`.
pub open spec fn and_then_samples(found: Seq<Sample>, later: Result<Seq<Sample>, DecodeError>)
    -> Result<Seq<Sample>, DecodeError> {
    match later {
        Ok(samples) => Ok(found + samples),
        Err(e) => Err(e),
    }
}

/// The samples of the blocks up to the end marker. Bits after the end marker
/// are not looked at.
pub open spec fn parse_blocks(state: State, bits: Seq<bool>) -> Result<Seq<Sample>, DecodeError>
    decreases bits.len(),
{
    match parse_block(state, bits) {
        Err(e) => Err(e),
        Ok(None) => Ok(Seq::empty()),
        Ok(Some((sample, next, rest))) => if rest.len() < bits.len() {
            and_then_samples(seq![sample], parse_blocks(next, rest))
        } else {
            Err(DecodeError::MalformedControlCode)
        },
    }
}

/// The samples of a stream together with its starting timestamp.
pub open spec fn with_start(start: u64, found: Result<Seq<Sample>, DecodeError>) -> Result<
    (u64, Seq<Sample>),
    DecodeError,
> {
    match found {
        Ok(samples) => Ok((start, samples)),
        Err(e) => Err(e),
    }
}

/// The starting timestamp and the samples of a whole stream.
pub open spec fn parse_stream(bits: Seq<bool>) -> Result<(u64, Seq<Sample>), DecodeError> {
    match read(bits, 64) {
        None => Err(DecodeError::ChannelExhausted),
        Some((start, rest)) => with_start(
            start as u64,
            parse_blocks(State::initial(start as u64), rest),
        ),
    }
}

/// Every block takes at least one bit, and leaves a state as sound as it
/// found.
pub proof fn lemma_parse_block_progress(state: State, bits: Seq<bool>)
    requires
        state.wf(),
    ensures
        match parse_block(state, bits) {
            Ok(Some((_, next, rest))) => rest.len() < bits.len() && next.wf() && !next.first,
            _ => true,
        },
{
    reveal(parse_block);
    reveal(parse_timestamp);
    reveal(parse_value);
}

/// Samples found one after the other are found together.
pub proof fn lemma_and_then_push(
    found: Seq<Sample>,
    sample: Sample,
    later: Result<Seq<Sample>, DecodeError>,
)
    ensures
        and_then_samples(found, and_then_samples(seq![sample], later)) == and_then_samples(
            found.push(sample),
            later,
        ),
        and_then_samples(Seq::empty(), later) == later,
{
    match later {
        Ok(samples) => {
            assert(found + (seq![sample] + samples) =~= found.push(sample) + samples);
            assert(Seq::<Sample>::empty() + samples =~= samples);
        },
        Err(_) => {},
    }
}

} // verus!

//! The decoder: a bitstream in, the samples out, one by one.

use vstd::prelude::*;
use vstd::arithmetic::power2::lemma2_to64;
use tsz::stream::BufferedReader;
use crate::methods::bits::lemma_bits_value_bound;
use crate::methods::format::{Sample, State};
use crate::methods::parse::{
    advance, and_then_samples, lemma_and_then_push, lemma_parse_block_progress, parse_block,
    parse_blocks, parse_change, parse_first, parse_stream, parse_timestamp, parse_value,
    parse_window, read, with_start, DecodeError, END_MARKER_REST,
};
use crate::methods::stream::{new_reader, read_bit, read_bits, reader_bits, unpack};

verus! {

/// Where a decoder stands in its stream.
#[derive(Clone, Copy, Debug, PartialEq, Eq, Structural)]
pub enum Phase {
    /// Blocks may follow.
    Reading,
    /// The end marker was read.
    Ended,
    /// The stream was found broken; the decoder reads no further.
    Failed(DecodeError),
}

/// Decodes the samples of a stream one by one from a bit channel.
pub struct StdDecoder {
    state: State,
    phase: Phase,
    r: BufferedReader,
}

impl StdDecoder {
    #[verifier::type_invariant]
    spec fn inv(self) -> bool {
        self.state.wf()
    }

    /// What the decoder has rebuilt of the encoder's state.
    pub closed spec fn state(&self) -> State {
        self.state
    }

    /// Where the decoder stands.
    pub closed spec fn phase(&self) -> Phase {
        self.phase
    }

    /// The bits not read yet.
    pub closed spec fn remaining(&self) -> Seq<bool> {
        reader_bits(self.r)
    }

    /// A decoder for the stream in `r`. The header is read at once.
    pub fn new(r: BufferedReader) -> (res: Result<Self, DecodeError>)
        ensures
            match read(reader_bits(r), 64) {
                Some((start, rest)) => res is Ok && res->Ok_0.state() == State::initial(
                    start as u64,
                ) && res->Ok_0.phase() == Phase::Reading && res->Ok_0.remaining() == rest,
                None => res is Err && res->Err_0 == DecodeError::ChannelExhausted,
            },
    {
        let mut r = r;
        match read_bits(&mut r, 64) {
            Ok(start) => Ok(
                StdDecoder {
                    state: State {
                        time: start,
                        delta: 0,
                        value_bits: 0,
                        leading_zeroes: 64,
                        trailing_zeroes: 64,
                        first: true,
                    },
                    phase: Phase::Reading,
                    r,
                },
            ),
            Err(_) => Err(DecodeError::ChannelExhausted),
        }
    }

    /// The starting timestamp or, once a sample was decoded, the timestamp
    /// of the last one.
    pub fn time(&self) -> (t: u64)
        ensures
            t == self.state().time,
    {
        self.state.time
    }

    fn bit(&mut self) -> (res: Result<bool, DecodeError>)
        ensures
            final(self).state == old(self).state,
            final(self).phase == old(self).phase,
            match res {
                Ok(b) => old(self).remaining().len() >= 1 && b == old(self).remaining()[0]
                    && final(self).remaining() == old(self).remaining().skip(1),
                Err(e) => old(self).remaining().len() < 1 && e == DecodeError::ChannelExhausted,
            },
    {
        proof {
            use_type_invariant(&*self);
        }
        match read_bit(&mut self.r) {
            Ok(b) => Ok(b),
            Err(_) => Err(DecodeError::ChannelExhausted),
        }
    }

    fn bits(&mut self, num: u32) -> (res: Result<u64, DecodeError>)
        requires
            num <= 64,
        ensures
            final(self).state == old(self).state,
            final(self).phase == old(self).phase,
            match res {
                Ok(v) => read(old(self).remaining(), num as nat) == Some(
                    (v as nat, final(self).remaining()),
                ),
                Err(e) => read(old(self).remaining(), num as nat) is None && e
                    == DecodeError::ChannelExhausted,
            },
    {
        proof {
            use_type_invariant(&*self);
        }
        match read_bits(&mut self.r, num) {
            Ok(v) => Ok(v),
            Err(_) => Err(DecodeError::ChannelExhausted),
        }
    }

    /// Reads the first block: the sample and the state after it, or nothing
    /// at the end marker.
    fn read_first(&mut self) -> (res: Result<Option<(Sample, State)>, DecodeError>)
        ensures
            final(self).state == old(self).state,
            final(self).phase == old(self).phase,
            match parse_first(old(self).state, old(self).remaining()) {
                Ok(Some((sample, next, rest))) => res == Ok::<_, DecodeError>(Some((sample, next)))
                    && final(self).remaining() == rest,
                Ok(None) => res == Ok::<Option<(Sample, State)>, DecodeError>(None),
                Err(e) => res == Err::<Option<(Sample, State)>, _>(e),
            },
    {
        proof {
            use_type_invariant(&*self);
        }
        let control = match self.bit() {
            Ok(b) => b,
            Err(e) => { return Err(e); },
        };
        if control {
            // a stream without samples: the rest of the end marker follows
            match self.bits(35) {
                Ok(marker) => if marker == END_MARKER_REST {
                    Ok(None)
                } else {
                    Err(DecodeError::MalformedControlCode)
                },
                Err(e) => Err(e),
            }
        } else {
            let delta = match self.bits(14) {
                Ok(v) => v,
                Err(e) => { return Err(e); },
            };
            let value_bits = match self.bits(64) {
                Ok(v) => v,
                Err(e) => { return Err(e); },
            };
            let time = self.state.time.wrapping_add(delta);
            Ok(
                Some(
                    (
                        Sample { timestamp: time, value_bits },
                        State { time, delta, value_bits, first: false, ..self.state },
                    ),
                ),
            )
        }
    }

    /// Reads the payload of a timestamp code: the new step, or nothing at
    /// the end marker.
    fn read_change(
        &mut self,
        size: u32,
        Ghost(prefix): Ghost<nat>,
        Ghost(code): Ghost<Seq<bool>>,
    ) -> (res: Result<Option<u64>, DecodeError>)
        requires
            size == 7 || size == 9 || size == 12 || size == 32,
            old(self).remaining() == code.skip(prefix as int),
        ensures
            final(self).state == old(self).state,
            final(self).phase == old(self).phase,
            match parse_change(code, prefix, size as nat) {
                Ok(Some((change, rest))) => res == Ok::<_, DecodeError>(
                    Some(advance(old(self).state.delta, change)),
                ) && final(self).remaining() == rest,
                Ok(None) => res == Ok::<Option<u64>, DecodeError>(None),
                Err(e) => res == Err::<Option<u64>, _>(e),
            },
    {
        proof {
            lemma2_to64();
        }
        let payload = match self.bits(size) {
            Ok(v) => v,
            Err(e) => { return Err(e); },
        };
        proof {
            lemma_bits_value_bound(code.skip(prefix as int).take(size as int));
        }
        if size == 32 && payload == 0 {
            return Ok(None);
        }
        let moved = self.state.delta.wrapping_add(payload);
        assert(1u64 << 6 == 0x40 && 1u64 << 8 == 0x100 && 1u64 << 11 == 0x800 && 1u64 << 31
            == 0x8000_0000) by (bit_vector);
        assert(1u64 << 7 == 0x80 && 1u64 << 9 == 0x200 && 1u64 << 12 == 0x1000 && 1u64 << 32
            == 0x1_0000_0000) by (bit_vector);
        if payload > (1u64 << (size - 1)) {
            // a negative change: take off what two's complement added
            Ok(Some(moved.wrapping_sub(1u64 << size)))
        } else {
            Ok(Some(moved))
        }
    }

    /// Reads a timestamp code: the new step, or nothing at the end marker.
    fn read_next_timestamp(&mut self) -> (res: Result<Option<u64>, DecodeError>)
        ensures
            final(self).state == old(self).state,
            final(self).phase == old(self).phase,
            match parse_timestamp(old(self).remaining()) {
                Ok(Some((change, rest))) => res == Ok::<_, DecodeError>(
                    Some(advance(old(self).state.delta, change)),
                ) && final(self).remaining() == rest,
                Ok(None) => res == Ok::<Option<u64>, DecodeError>(None),
                Err(e) => res == Err::<Option<u64>, _>(e),
            },
    {
        proof {
            reveal(parse_timestamp);
        }
        let ghost code = self.remaining();
        let mut ones: u32 = 0;
        while ones < 4
            invariant
                ones <= 4,
                self.state == old(self).state,
                self.phase == old(self).phase,
                code == old(self).remaining(),
                code.len() >= ones,
                self.remaining() == code.skip(ones as int),
                forall|i: int| 0 <= i < ones ==> code[i],
            decreases 4 - ones,
        {
            proof {
                reveal(parse_timestamp);
            }
            match self.bit() {
                Ok(b) => {
                    assert(code.skip(ones as int).skip(1) =~= code.skip(ones + 1));
                    if b {
                        ones += 1;
                    } else {
                        if ones == 0 {
                            return Ok(Some(self.state.delta));
                        } else if ones == 1 {
                            return self.read_change(7, Ghost(2), Ghost(code));
                        } else if ones == 2 {
                            return self.read_change(9, Ghost(3), Ghost(code));
                        } else {
                            return self.read_change(12, Ghost(4), Ghost(code));
                        }
                    }
                },
                Err(e) => { return Err(e); },
            }
        }
        self.read_change(32, Ghost(4), Ghost(code))
    }

    /// Reads the changed bits of a value inside a window: the state with
    /// the new value and that window.
    fn read_window(&mut self, leading: u32, trailing: u32) -> (res: Result<State, DecodeError>)
        requires
            leading + trailing < 64,
        ensures
            final(self).state == old(self).state,
            final(self).phase == old(self).phase,
            match parse_window(old(self).state, leading, trailing, old(self).remaining()) {
                Ok((valued, rest)) => res == Ok::<_, DecodeError>(valued) && final(self).remaining()
                    == rest,
                Err(e) => res == Err::<State, _>(e),
            },
    {
        match self.bits(64 - leading - trailing) {
            Ok(changed) => Ok(
                State {
                    value_bits: self.state.value_bits ^ (changed << (trailing as u64)),
                    leading_zeroes: leading,
                    trailing_zeroes: trailing,
                    ..self.state
                },
            ),
            Err(e) => Err(e),
        }
    }

    /// Reads a value code: the state with the new value and window.
    fn read_next_value(&mut self) -> (res: Result<State, DecodeError>)
        ensures
            final(self).state == old(self).state,
            final(self).phase == old(self).phase,
            match parse_value(old(self).state, old(self).remaining()) {
                Ok((valued, rest)) => res == Ok::<_, DecodeError>(valued) && final(self).remaining()
                    == rest,
                Err(e) => res == Err::<State, _>(e),
            },
    {
        proof {
            use_type_invariant(&*self);
            reveal(parse_value);
            lemma2_to64();
        }
        let ghost code = self.remaining();
        let changed = match self.bit() {
            Ok(b) => b,
            Err(e) => { return Err(e); },
        };
        if !changed {
            return Ok(self.state);
        }
        let fresh = match self.bit() {
            Ok(b) => b,
            Err(e) => { return Err(e); },
        };
        assert(code.skip(1).skip(1) =~= code.skip(2));
        if !fresh {
            if self.state.leading_zeroes >= 64 || self.state.trailing_zeroes >= 64 {
                return Err(DecodeError::MalformedControlCode);
            }
            self.read_window(self.state.leading_zeroes, self.state.trailing_zeroes)
        } else {
            let leading = match self.bits(6) {
                Ok(v) => v,
                Err(e) => { return Err(e); },
            };
            proof {
                lemma_bits_value_bound(code.skip(2).take(6));
            }
            let ghost after = self.remaining();
            let less_one = match self.bits(6) {
                Ok(v) => v,
                Err(e) => { return Err(e); },
            };
            proof {
                lemma_bits_value_bound(after.take(6));
            }
            if leading + less_one + 1 > 64 {
                return Err(DecodeError::MalformedControlCode);
            }
            self.read_window(leading as u32, (64 - leading - less_one - 1) as u32)
        }
    }

    /// Decodes the next sample. At the end marker, and ever after, there is
    /// none. A stream that runs out early or was not written by an encoder is
    /// an error, and stays one.
    pub fn decode_next(&mut self) -> (res: Result<Option<Sample>, DecodeError>)
        ensures
            match old(self).phase() {
                Phase::Ended => res == Ok::<Option<Sample>, DecodeError>(None) && final(self).phase()
                    == Phase::Ended,
                Phase::Failed(e) => res == Err::<Option<Sample>, _>(e) && final(self).phase()
                    == Phase::Failed(e),
                Phase::Reading => match parse_block(old(self).state(), old(self).remaining()) {
                    Ok(Some((sample, next, rest))) => res == Ok::<_, DecodeError>(Some(sample))
                        && final(self).phase() == Phase::Reading && final(self).state() == next
                        && final(self).remaining() == rest,
                    Ok(None) => res == Ok::<Option<Sample>, DecodeError>(None)
                        && final(self).phase() == Phase::Ended,
                    Err(e) => res == Err::<Option<Sample>, _>(e) && final(self).phase()
                        == Phase::Failed(e),
                },
            },
    {
        proof {
            use_type_invariant(&*self);
            reveal(parse_block);
            lemma_parse_block_progress(self.state, self.remaining());
        }
        match self.phase {
            Phase::Ended => { return Ok(None); },
            Phase::Failed(e) => { return Err(e); },
            Phase::Reading => {},
        }
        let read = if self.state.first {
            self.read_first()
        } else {
            match self.read_next_timestamp() {
                Err(e) => Err(e),
                Ok(None) => Ok(None),
                Ok(Some(delta)) => {
                    let time = self.state.time.wrapping_add(delta);
                    match self.read_next_value() {
                        Err(e) => Err(e),
                        Ok(valued) => Ok(
                            Some(
                                (
                                    Sample { timestamp: time, value_bits: valued.value_bits },
                                    State { time, delta, ..valued },
                                ),
                            ),
                        ),
                    }
                },
            }
        };
        match read {
            Ok(Some((sample, next))) => {
                self.state = next;
                Ok(Some(sample))
            },
            Ok(None) => {
                self.phase = Phase::Ended;
                Ok(None)
            },
            Err(e) => {
                self.phase = Phase::Failed(e);
                Err(e)
            },
        }
    }
}

/// Decodes a whole stream: its starting timestamp and its samples.
pub fn decode_all(bytes: Vec<u8>) -> (res: Result<(u64, Vec<Sample>), DecodeError>)
    ensures
        match parse_stream(unpack(bytes@)) {
            Ok((start, samples)) => res is Ok && res->Ok_0.0 == start && res->Ok_0.1@ == samples,
            Err(e) => res == Err::<(u64, Vec<Sample>), _>(e),
        },
{
    let ghost all = unpack(bytes@);
    let mut decoder = match StdDecoder::new(new_reader(bytes)) {
        Ok(d) => d,
        Err(e) => { return Err(e); },
    };
    let start = decoder.time();
    let mut samples: Vec<Sample> = Vec::new();
    proof {
        lemma_and_then_push(
            samples@,
            Sample { timestamp: 0, value_bits: 0 },
            parse_blocks(decoder.state(), decoder.remaining()),
        );
    }
    loop
        invariant
            all == unpack(bytes@),
            decoder.phase() == Phase::Reading,
            parse_stream(all) == with_start(
                start,
                and_then_samples(samples@, parse_blocks(decoder.state(), decoder.remaining())),
            ),
        decreases decoder.remaining().len(),
    {
        let ghost state = decoder.state();
        let ghost bits = decoder.remaining();
        let ghost found = samples@;
        proof {
            use_type_invariant(&decoder);
            lemma_parse_block_progress(state, bits);
        }
        let decoded = decoder.decode_next();
        match decoded {
            Ok(Some(sample)) => {
                proof {
                    let later = parse_blocks(decoder.state(), decoder.remaining());
                    assert(parse_blocks(state, bits) == and_then_samples(seq![sample], later));
                    lemma_and_then_push(found, sample, later);
                }
                samples.push(sample);
            },
            Ok(None) => {
                assert(parse_blocks(state, bits) == Ok::<_, DecodeError>(Seq::<Sample>::empty()));
                assert(found + Seq::<Sample>::empty() =~= found);
                return Ok((start, samples));
            },
            Err(e) => {
                assert(parse_blocks(state, bits) == Err::<Seq<Sample>, _>(e));
                return Err(e);
            },
        }
    }
}

} // verus!

//! The encoder: samples in, a terminated bitstream out.

use vstd::prelude::*;
use vstd::arithmetic::power2::lemma2_to64;
use vstd::wrapping::u64_specs::wrapping_sub;
use tsz::stream::BufferedWriter;
use crate::methods::bits::{bits_of, lemma_bits_of_congruent};
use crate::methods::format::{
    block, blocks, delta_of_delta, encoding, end_marker, first_block, header, lemma_blocks_push, lemma_prefix_bits, lemma_zero_runs, state_after, step, step_value,
    timestamp_code, value_code, Sample, State, END_MARKER, END_MARKER_LEN,
};
use crate::methods::stream::{
    close_writer, new_writer, pack, write_bit, write_bits, writer_bits, writer_ready,
};

verus! {

/// Encodes samples one by one into a bit channel of its own.
pub struct StdEncoder {
    state: State,
    w: BufferedWriter,
}

impl StdEncoder {
    #[verifier::type_invariant]
    spec fn inv(self) -> bool {
        self.state.wf() && writer_ready(self.w)
    }

    /// What the encoder remembers of the samples so far.
    pub closed spec fn state(&self) -> State {
        self.state
    }

    /// The bits written so far.
    pub closed spec fn written(&self) -> Seq<bool> {
        writer_bits(self.w)
    }

    /// An encoder for a stream that starts at `start`. The starting
    /// timestamp is written at once, as the header.
    pub fn new(start: u64) -> (e: Self)
        ensures
            e.state() == State::initial(start),
            e.written() == header(start),
    {
        let mut w = new_writer();
        write_bits(&mut w, start, 64);
        assert(writer_bits(w) =~= header(start));
        StdEncoder {
            state: State {
                time: start,
                delta: 0,
                value_bits: 0,
                leading_zeroes: 64,
                trailing_zeroes: 64,
                first: true,
            },
            w,
        }
    }

    fn write_first(&mut self, time: u64, value_bits: u64)
        requires
            old(self).state.first,
        ensures
            final(self).state == step(old(self).state, (Sample { timestamp: time, value_bits })),
            writer_bits(final(self).w) == writer_bits(old(self).w) + first_block(
                old(self).state,
                (Sample { timestamp: time, value_bits }),
            ),
    {
        proof {
            use_type_invariant(&*self);
        }
        let ghost before = writer_bits(self.w);
        let delta = time.wrapping_sub(self.state.time);
        write_bit(&mut self.w, false);
        write_bits(&mut self.w, delta, 14);
        write_bits(&mut self.w, value_bits, 64);
        assert(writer_bits(self.w) =~= before + (seq![false] + bits_of(delta as int, 14) + bits_of(
            value_bits as int,
            64,
        )));
        self.state = State { time, delta, value_bits, first: false, ..self.state };
    }

    fn write_next_timestamp(&mut self, time: u64)
        ensures
            final(self).state == (State {
                time,
                delta: wrapping_sub(time, old(self).state.time),
                ..old(self).state
            }),
            writer_bits(final(self).w) == writer_bits(old(self).w) + timestamp_code(
                delta_of_delta(wrapping_sub(time, old(self).state.time), old(self).state.delta),
            ),
    {
        proof {
            use_type_invariant(&*self);
            reveal(timestamp_code);
            lemma2_to64();
            lemma_prefix_bits();
        }
        let ghost before = writer_bits(self.w);
        let delta = time.wrapping_sub(self.state.time);
        let diff = delta.wrapping_sub(self.state.delta);
        let low: u64 = diff & 0xffff_ffff;
        assert(low == (delta - self.state.delta) % 0x1_0000_0000) by {
            assert(diff & 0xffff_ffff == diff % 0x1_0000_0000) by (bit_vector);
        }
        let dod: i64 = if low >= 0x8000_0000 {
            low as i64 - 0x1_0000_0000
        } else {
            low as i64
        };
        assert(dod == delta_of_delta(delta, self.state.delta));
        if dod == 0 {
            write_bit(&mut self.w, false);
            assert(writer_bits(self.w) =~= before + seq![false]);
        } else if -63 <= dod && dod <= 64 {
            write_bits(&mut self.w, 0b10, 2);
            write_bits(&mut self.w, low, 7);
            proof {
                lemma_bits_of_congruent(low as int, dod as int, 7);
                assert(writer_bits(self.w) =~= before + (seq![true, false] + bits_of(
                    dod as int,
                    7,
                )));
            }
        } else if -255 <= dod && dod <= 256 {
            write_bits(&mut self.w, 0b110, 3);
            write_bits(&mut self.w, low, 9);
            proof {
                lemma_bits_of_congruent(low as int, dod as int, 9);
                assert(writer_bits(self.w) =~= before + (seq![true, true, false] + bits_of(
                    dod as int,
                    9,
                )));
            }
        } else if -2047 <= dod && dod <= 2048 {
            write_bits(&mut self.w, 0b1110, 4);
            write_bits(&mut self.w, low, 12);
            proof {
                lemma_bits_of_congruent(low as int, dod as int, 12);
                assert(writer_bits(self.w) =~= before + (seq![true, true, true, false] + bits_of(
                    dod as int,
                    12,
                )));
            }
        } else {
            write_bits(&mut self.w, 0b1111, 4);
            write_bits(&mut self.w, low, 32);
            proof {
                lemma_bits_of_congruent(low as int, dod as int, 32);
                assert(writer_bits(self.w) =~= before + (seq![true, true, true, true] + bits_of(
                    dod as int,
                    32,
                )));
            }
        }
        self.state = State { time, delta, ..self.state };
    }

    fn write_next_value(&mut self, value_bits: u64)
        ensures
            final(self).state == step_value(old(self).state, value_bits),
            writer_bits(final(self).w) == writer_bits(old(self).w) + value_code(
                old(self).state,
                value_bits,
            ),
    {
        proof {
            use_type_invariant(&*self);
            reveal(value_code);
        }
        let ghost before = writer_bits(self.w);
        let xor = value_bits ^ self.state.value_bits;
        if xor == 0 {
            // nothing changed: a single zero bit
            write_bit(&mut self.w, false);
            assert(writer_bits(self.w) =~= before + seq![false]);
            self.state = State { value_bits, ..self.state };
        } else {
            write_bit(&mut self.w, true);
            let leading_zeroes = xor.leading_zeros();
            let trailing_zeroes = xor.trailing_zeros();
            proof {
                lemma_zero_runs(xor);
            }
            if leading_zeroes >= self.state.leading_zeroes && trailing_zeroes
                >= self.state.trailing_zeroes {
                // the changed bits lie inside the window written last: a
                // control bit and the bits of that window
                write_bit(&mut self.w, false);
                write_bits(
                    &mut self.w,
                    xor >> (self.state.trailing_zeroes as u64),
                    64 - self.state.leading_zeroes - self.state.trailing_zeroes,
                );
                assert(writer_bits(self.w) =~= before + (seq![true, false] + bits_of(
                    (xor >> (self.state.trailing_zeroes as u64)) as int,
                    (64 - self.state.leading_zeroes - self.state.trailing_zeroes) as nat,
                )));
                self.state = State { value_bits, ..self.state };
            } else {
                // a window of their own: a control bit, the number of leading
                // zeroes and that of significant bits less one, six bits
                // each, then the significant bits
                write_bit(&mut self.w, true);
                write_bits(&mut self.w, leading_zeroes as u64, 6);
                let significant_digits = 64 - leading_zeroes - trailing_zeroes;
                write_bits(&mut self.w, (significant_digits - 1) as u64, 6);
                write_bits(&mut self.w, xor >> (trailing_zeroes as u64), significant_digits);
                assert(writer_bits(self.w) =~= before + (seq![true, true] + bits_of(
                    leading_zeroes as int,
                    6,
                ) + bits_of(64 - leading_zeroes - trailing_zeroes - 1, 6) + bits_of(
                    (xor >> (trailing_zeroes as u64)) as int,
                    (64 - leading_zeroes - trailing_zeroes) as nat,
                )));
                self.state = State { value_bits, leading_zeroes, trailing_zeroes, ..self.state };
            }
        }
    }

    /// Writes the block of `sample`.
    pub fn encode(&mut self, sample: Sample)
        ensures
            final(self).state() == step(old(self).state(), sample),
            final(self).written() == old(self).written() + block(old(self).state(), sample),
    {
        if self.state.first {
            self.write_first(sample.timestamp, sample.value_bits);
        } else {
            self.write_next_timestamp(sample.timestamp);
            self.write_next_value(sample.value_bits);
            proof {
                reveal(value_code);
            }
            assert(writer_bits(self.w) =~= writer_bits(old(self).w) + block(
                old(self).state,
                sample,
            ));
        }
    }

    /// Writes the end marker and hands out the bytes of the stream, the last
    /// byte filled up with zero bits.
    pub fn close(self) -> (bytes: Vec<u8>)
        ensures
            bytes@ == pack(self.written() + end_marker()),
    {
        proof {
            use_type_invariant(&self);
        }
        let mut w = self.w;
        write_bits(&mut w, END_MARKER, END_MARKER_LEN);
        close_writer(w)
    }
}

/// Encodes a whole series that starts at `start`.
pub fn encode_all(start: u64, samples: &Vec<Sample>) -> (bytes: Vec<u8>)
    ensures
        bytes@ == pack(encoding(start, samples@)),
{
    let mut encoder = StdEncoder::new(start);
    let mut i: usize = 0;
    while i < samples.len()
        invariant
            i <= samples.len(),
            encoder.state() == state_after(State::initial(start), samples@.take(i as int)),
            encoder.written() == header(start) + blocks(
                State::initial(start),
                samples@.take(i as int),
            ),
        decreases samples.len() - i,
    {
        proof {
            lemma_blocks_push(State::initial(start), samples@.take(i as int), samples@[i as int]);
            assert(samples@.take(i + 1) =~= samples@.take(i as int).push(samples@[i as int]));
        }
        encoder.encode(samples[i]);
        assert(encoder.written() =~= header(start) + blocks(
            State::initial(start),
            samples@.take(i + 1),
        ));
        i += 1;
    }
    assert(samples@.take(i as int) =~= samples@);
    encoder.close()
}

} // verus!

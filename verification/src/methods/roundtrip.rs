//! What is written is what is read: the laws that tie the wire format to its
//! reading.

use vstd::prelude::*;
use vstd::arithmetic::div_mod::{
    lemma_fundamental_div_mod, lemma_fundamental_div_mod_converse, lemma_mod_bound,
    lemma_small_mod,
};
use vstd::arithmetic::power2::{
    lemma2_to64, lemma2_to64_rest, lemma_pow2_pos, lemma_pow2_unfold, pow2,
};
use vstd::bits::lemma_u64_shr_is_div;
use vstd::std_specs::bits::{
    axiom_u64_leading_zeros, axiom_u64_trailing_zeros, u64_leading_zeros, u64_trailing_zeros,
};
use vstd::wrapping::u64_specs::wrapping_sub;
use crate::methods::bits::{
    bits_of, bits_value, lemma_bits_of_congruent, lemma_bits_of_len, lemma_bits_of_split,
    lemma_bits_of_value, lemma_bits_value_bound, lemma_bits_value_of, zeros,
};
use crate::methods::format::{
    block, blocks, delta_of_delta, encodable, encoding, end_marker, first_block, header,
    in_window, lemma_end_marker, lemma_prefix_bits, lemma_zero_runs, next_block,
    series_encodable, step, step_value, timestamp_code, value_code, Sample, State,
};
use crate::methods::parse::{
    advance, lemma_parse_block_progress, parse_block, parse_blocks, parse_change, parse_first,
    parse_next, parse_stream, parse_timestamp, parse_value, parse_window, read, DecodeError,
    END_MARKER_REST,
};
use crate::methods::stream::{pack, padded, unpack};

verus! {

/// Bits written as a number are read as that number, modulo their count.
pub proof fn lemma_read_written(x: int, n: nat, rest: Seq<bool>)
    ensures
        read(bits_of(x, n) + rest, n) == Some(((x % (pow2(n) as int)) as nat, rest)),
{
    let written = bits_of(x, n);
    lemma_bits_of_len(x, n);
    lemma_bits_value_of(x, n);
    assert((written + rest).take(n as int) =~= written);
    assert((written + rest).skip(n as int) =~= rest);
}

/// Unpacking packed bits gives the bits, filled up to whole bytes.
pub proof fn lemma_unpack_pack(bits: Seq<bool>)
    ensures
        unpack(pack(bits)) == padded(bits),
{
    let full = padded(bits);
    let bytes = pack(bits);
    assert(full.len() == 8 * bytes.len());
    assert forall|i: int| 0 <= i < full.len() implies unpack(bytes)[i] == full[i] by {
        let j = i / 8;
        let chunk = full.subrange(8 * j, 8 * j + 8);
        lemma_bits_value_bound(chunk);
        lemma_bits_of_value(chunk);
        lemma2_to64();
        assert(bytes[j] == bits_value(chunk));
        assert(chunk[i % 8] == full[i]);
    }
    assert(unpack(bytes) =~= full);
}

/// A number with `leading` zero bits above and `trailing` zero bits below
/// the bits set in it is its bits in between, moved back up.
proof fn lemma_window_bits(x: u64, leading: u64, trailing: u64)
    requires
        x != 0,
        leading <= u64_leading_zeros(x),
        trailing <= u64_trailing_zeros(x),
    ensures
        leading + trailing < 64,
        (x >> trailing) < pow2((64 - leading - trailing) as nat),
        (x >> trailing) << trailing == x,
{
    lemma_zero_runs(x);
    axiom_u64_leading_zeros(x);
    axiom_u64_trailing_zeros(x);
    let above = u64_leading_zeros(x) as u64;
    let below = u64_trailing_zeros(x) as u64;
    let high = (64 - above) as u64;
    let low = (64 - below) as u64;
    assert(x >> high == 0);
    assert(x << low == 0);
    let y = x >> trailing;
    let width = (64 - leading - trailing) as u64;
    assert((x >> trailing) << trailing == x) by (bit_vector)
        requires
            trailing <= below,
            below < 64,
            low == 64 - below,
            x << low == 0,
    ;
    lemma2_to64();
    if width < 64 {
        assert(y >> width == 0) by (bit_vector)
            requires
                y == x >> trailing,
                leading <= above,
                above < 64,
                leading + trailing < 64,
                width == 64 - leading - trailing,
                width < 64,
                high == 64 - above,
                x >> high == 0,
        ;
        lemma_u64_shr_is_div(y, width);
        lemma_pow2_pos(width as nat);
        lemma_fundamental_div_mod(y as int, pow2(width as nat) as int);
        lemma_mod_bound(y as int, pow2(width as nat) as int);
    }
}

/// The change of step that the encoder writes is the true one, but for the
/// one change that 32 bits spell as its negative.
proof fn lemma_delta_of_delta(delta: u64, last_delta: u64)
    requires
        -0x8000_0000 < delta - last_delta <= 0x8000_0000,
    ensures
        delta - last_delta < 0x8000_0000 ==> delta_of_delta(delta, last_delta) == delta
            - last_delta,
        delta - last_delta == 0x8000_0000 ==> delta_of_delta(delta, last_delta) == -0x8000_0000,
        advance(last_delta, delta - last_delta) == delta,
{
}

/// The payload of a timestamp code is read as the change it was written
/// for.
proof fn lemma_change_round_trip(prefix: Seq<bool>, change: int, n: nat, rest: Seq<bool>)
    requires
        1 <= n <= 32,
        change != 0,
        -pow2((n - 1) as nat) < change <= pow2((n - 1) as nat),
    ensures
        parse_change(prefix + bits_of(change, n) + rest, prefix.len(), n) == Ok::<_, DecodeError>(
            Some((change, rest)),
        ),
{
    let bits = prefix + bits_of(change, n) + rest;
    let m = pow2(n) as int;
    lemma_pow2_unfold(n);
    lemma_pow2_pos((n - 1) as nat);
    lemma_read_written(change, n, rest);
    assert(bits.skip(prefix.len() as int) =~= bits_of(change, n) + rest);
    if change > 0 {
        lemma_small_mod(change as nat, m as nat);
    } else {
        lemma_fundamental_div_mod_converse(change, m, -1, change + m);
    }
}

/// The code of a change of step is read as that change, and gives the step
/// back.
pub proof fn lemma_timestamp_round_trip(delta: u64, last_delta: u64, rest: Seq<bool>)
    requires
        -0x8000_0000 < delta - last_delta <= 0x8000_0000,
    ensures
        parse_timestamp(timestamp_code(delta_of_delta(delta, last_delta)) + rest) == Ok::<
            _,
            DecodeError,
        >(Some((delta - last_delta, rest))),
        advance(last_delta, delta - last_delta) == delta,
{
    reveal(timestamp_code);
    reveal(parse_timestamp);
    let change = delta - last_delta;
    let dod = delta_of_delta(delta, last_delta);
    let bits = timestamp_code(dod) + rest;
    lemma_delta_of_delta(delta, last_delta);
    assert(pow2(6) == 0x40 && pow2(8) == 0x100 && pow2(11) == 0x800 && pow2(31) == 0x8000_0000
        && pow2(32) == 0x1_0000_0000) by {
        lemma2_to64();
    }
    if dod == 0 {
        assert(bits.skip(1) =~= rest);
    } else if -63 <= dod <= 64 {
        lemma_change_round_trip(seq![true, false], change, 7, rest);
    } else if -255 <= dod <= 256 {
        lemma_change_round_trip(seq![true, true, false], change, 9, rest);
    } else if -2047 <= dod <= 2048 {
        lemma_change_round_trip(seq![true, true, true, false], change, 12, rest);
    } else {
        lemma_bits_of_congruent(dod, change, 32);
        lemma_change_round_trip(seq![true, true, true, true], change, 32, rest);
    }
}

/// Changed bits written inside a window are read as the new value.
proof fn lemma_window_round_trip(
    state: State,
    value_bits: u64,
    leading: u32,
    trailing: u32,
    rest: Seq<bool>,
)
    requires
        value_bits != state.value_bits,
        leading <= u64_leading_zeros(value_bits ^ state.value_bits),
        trailing <= u64_trailing_zeros(value_bits ^ state.value_bits),
    ensures
        leading + trailing < 64,
        parse_window(
            state,
            leading,
            trailing,
            bits_of(
                ((value_bits ^ state.value_bits) >> (trailing as u64)) as int,
                (64 - leading - trailing) as nat,
            ) + rest,
        ) == Ok::<_, DecodeError>(
            (
                State { value_bits, leading_zeroes: leading, trailing_zeroes: trailing, ..state },
                rest,
            ),
        ),
{
    let prev = state.value_bits;
    let xor = value_bits ^ prev;
    assert(value_bits ^ prev == 0 ==> value_bits == prev) by (bit_vector);
    assert(prev ^ (value_bits ^ prev) == value_bits) by (bit_vector);
    lemma_window_bits(xor, leading as u64, trailing as u64);
    let y = xor >> (trailing as u64);
    let width = (64 - leading - trailing) as nat;
    lemma_read_written(y as int, width, rest);
    lemma_small_mod(y as nat, pow2(width));
}

/// The code of an unchanged value is read as that value.
proof fn lemma_same_value_round_trip(state: State, value_bits: u64, rest: Seq<bool>)
    requires
        value_bits ^ state.value_bits == 0,
    ensures
        parse_value(state, value_code(state, value_bits) + rest) == Ok::<_, DecodeError>(
            (step_value(state, value_bits), rest),
        ),
{
    reveal(value_code);
    reveal(parse_value);
    let prev = state.value_bits;
    assert(value_bits ^ prev == 0 ==> value_bits == prev) by (bit_vector);
    let bits = value_code(state, value_bits) + rest;
    assert(bits.skip(1) =~= rest);
}

/// The code of a value that changed inside the window is read as that
/// value.
proof fn lemma_kept_window_round_trip(state: State, value_bits: u64, rest: Seq<bool>)
    requires
        value_bits ^ state.value_bits != 0,
        in_window(state, value_bits ^ state.value_bits),
    ensures
        parse_value(state, value_code(state, value_bits) + rest) == Ok::<_, DecodeError>(
            (step_value(state, value_bits), rest),
        ),
{
    reveal(value_code);
    reveal(parse_value);
    let prev = state.value_bits;
    let xor = value_bits ^ prev;
    assert(value_bits == prev ==> value_bits ^ prev == 0) by (bit_vector);
    let leading = state.leading_zeroes;
    let trailing = state.trailing_zeroes;
    lemma_window_round_trip(state, value_bits, leading, trailing, rest);
    let payload = bits_of((xor >> (trailing as u64)) as int, (64 - leading - trailing) as nat)
        + rest;
    let bits = value_code(state, value_bits) + rest;
    assert(bits.skip(2) =~= payload);
    assert(bits[0] && !bits[1]);
    assert(parse_value(state, bits) == parse_window(state, leading, trailing, payload));
}

/// The two counts that open a window of its own are read as written.
proof fn lemma_counts_round_trip(leading: nat, width: nat, payload: Seq<bool>)
    requires
        leading < 64,
        1 <= width <= 64,
    ensures
        read(
            (seq![true, true] + bits_of(leading as int, 6) + bits_of(width - 1, 6)
                + payload).skip(2),
            6,
        ) == Some((leading, bits_of(width - 1, 6) + payload)),
        read(bits_of(width - 1, 6) + payload, 6) == Some(((width - 1) as nat, payload)),
{
    let counted = bits_of(width - 1, 6) + payload;
    let bits = seq![true, true] + bits_of(leading as int, 6) + bits_of(width - 1, 6) + payload;
    assert(pow2(6) == 64) by {
        lemma2_to64();
    }
    lemma_read_written(leading as int, 6, counted);
    lemma_read_written(width - 1, 6, payload);
    assert(bits.skip(2) =~= bits_of(leading as int, 6) + counted);
}

/// The code of a value that changed outside the window is read as that
/// value, with the window of the changed bits.
proof fn lemma_new_window_round_trip(state: State, value_bits: u64, rest: Seq<bool>)
    requires
        value_bits ^ state.value_bits != 0,
        !in_window(state, value_bits ^ state.value_bits),
    ensures
        parse_value(state, value_code(state, value_bits) + rest) == Ok::<_, DecodeError>(
            (step_value(state, value_bits), rest),
        ),
        step_value(state, value_bits).leading_zeroes + step_value(
            state,
            value_bits,
        ).trailing_zeroes < 64,
{
    let prev = state.value_bits;
    let xor = value_bits ^ prev;
    assert(value_bits == prev ==> value_bits ^ prev == 0) by (bit_vector);
    lemma_zero_runs(xor);
    let leading = u64_leading_zeros(xor) as u32;
    let trailing = u64_trailing_zeros(xor);
    lemma_window_round_trip(state, value_bits, leading, trailing, rest);
    let width = (64 - leading - trailing) as nat;
    let changed = bits_of((xor >> (trailing as u64)) as int, width);
    let payload = changed + rest;
    lemma_counts_round_trip(leading as nat, width, payload);
    let opened = seq![true, true] + bits_of(leading as int, 6) + bits_of(width - 1, 6);
    let bits = value_code(state, value_bits) + rest;
    assert(bits == opened + payload) by {
        reveal(value_code);
        assert(opened + changed + rest =~= opened + payload);
    }
    assert(bits[0] && bits[1] && bits.len() >= 2);
    assert(parse_value(state, bits) == parse_window(state, leading, trailing, payload)) by {
        reveal(parse_value);
    }
}

/// The code of a value is read as that value, and leaves the window that
/// the encoder remembers.
pub proof fn lemma_value_round_trip(state: State, value_bits: u64, rest: Seq<bool>)
    requires
        state.wf(),
    ensures
        parse_value(state, value_code(state, value_bits) + rest) == Ok::<_, DecodeError>(
            (step_value(state, value_bits), rest),
        ),
        step_value(state, value_bits).wf(),
{
    let xor = value_bits ^ state.value_bits;
    if xor == 0 {
        lemma_same_value_round_trip(state, value_bits, rest);
    } else if in_window(state, xor) {
        lemma_kept_window_round_trip(state, value_bits, rest);
    } else {
        lemma_new_window_round_trip(state, value_bits, rest);
    }
}

/// The first block is read as its sample.
proof fn lemma_first_round_trip(state: State, s: Sample, rest: Seq<bool>)
    requires
        state.first,
        encodable(state, s),
    ensures
        parse_first(state, first_block(state, s) + rest) == Ok::<_, DecodeError>(
            Some((s, step(state, s), rest)),
        ),
{
    let bits = first_block(state, s) + rest;
    let delta = wrapping_sub(s.timestamp, state.time);
    let valued = bits_of(s.value_bits as int, 64) + rest;
    assert(pow2(14) == 0x4000 && pow2(64) == 0x1_0000_0000_0000_0000) by {
        lemma2_to64();
    }
    lemma_read_written(delta as int, 14, valued);
    lemma_read_written(s.value_bits as int, 64, rest);
    assert(bits.skip(1) =~= bits_of(delta as int, 14) + valued);
}

/// A later block is read as its sample.
proof fn lemma_next_round_trip(state: State, s: Sample, rest: Seq<bool>)
    requires
        state.wf(),
        !state.first,
        encodable(state, s),
    ensures
        parse_next(state, next_block(state, s) + rest) == Ok::<_, DecodeError>(
            Some((s, step(state, s), rest)),
        ),
        step(state, s).wf(),
{
    let bits = next_block(state, s) + rest;
    let delta = wrapping_sub(s.timestamp, state.time);
    let valued = value_code(state, s.value_bits) + rest;
    lemma_timestamp_round_trip(delta, state.delta, valued);
    lemma_value_round_trip(state, s.value_bits, rest);
    assert(bits =~= timestamp_code(delta_of_delta(delta, state.delta)) + valued);
}

/// The block of a sample is read as that sample, and leaves the state that
/// the encoder is in.
pub proof fn lemma_block_round_trip(state: State, s: Sample, rest: Seq<bool>)
    requires
        state.wf(),
        encodable(state, s),
    ensures
        parse_block(state, block(state, s) + rest) == Ok::<_, DecodeError>(
            Some((s, step(state, s), rest)),
        ),
        step(state, s).wf(),
{
    reveal(parse_block);
    if state.first {
        lemma_first_round_trip(state, s, rest);
    } else {
        lemma_next_round_trip(state, s, rest);
    }
}

/// The end marker is read as the end, wherever a block may start.
pub proof fn lemma_end_round_trip(state: State, rest: Seq<bool>)
    ensures
        parse_block(state, end_marker() + rest) == Ok::<
            Option<(Sample, State, Seq<bool>)>,
            DecodeError,
        >(None),
{
    reveal(parse_block);
    reveal(parse_timestamp);
    let bits = end_marker() + rest;
    lemma_end_marker();
    lemma_prefix_bits();
    lemma2_to64();
    lemma2_to64_rest();
    if state.first {
        lemma_bits_of_split(END_MARKER_REST as int, 3, 32);
        lemma_bits_of_congruent(END_MARKER_REST as int, 0, 32);
        lemma_read_written(END_MARKER_REST as int, 35, rest);
        assert(bits.skip(1) =~= bits_of(END_MARKER_REST as int, 35) + rest);
    } else {
        lemma_read_written(0, 32, rest);
        assert(bits.skip(4) =~= bits_of(0, 32) + rest);
    }
}

/// The blocks of a series, closed by the end marker, are read as the series,
/// whatever follows the end marker.
pub proof fn lemma_blocks_round_trip(state: State, samples: Seq<Sample>, rest: Seq<bool>)
    requires
        state.wf(),
        series_encodable(state, samples),
    ensures
        parse_blocks(state, blocks(state, samples) + end_marker() + rest) == Ok::<_, DecodeError>(
            samples,
        ),
    decreases samples.len(),
{
    let bits = blocks(state, samples) + end_marker() + rest;
    if samples.len() == 0 {
        lemma_end_round_trip(state, rest);
        assert(bits =~= end_marker() + rest);
        assert(samples =~= Seq::<Sample>::empty());
    } else {
        let s = samples[0];
        let next = step(state, s);
        let later = blocks(next, samples.skip(1)) + end_marker() + rest;
        lemma_block_round_trip(state, s, later);
        lemma_parse_block_progress(state, bits);
        lemma_blocks_round_trip(next, samples.skip(1), rest);
        assert(bits =~= block(state, s) + later);
        assert(seq![s] + samples.skip(1) =~= samples);
    }
}

/// Round trip: the stream of a series whose blocks hold all of it is read as
/// that series with its starting timestamp, whatever follows the stream.
pub proof fn lemma_round_trip(start: u64, samples: Seq<Sample>, rest: Seq<bool>)
    requires
        series_encodable(State::initial(start), samples),
    ensures
        parse_stream(encoding(start, samples) + rest) == Ok::<_, DecodeError>((start, samples)),
{
    let body = blocks(State::initial(start), samples) + end_marker() + rest;
    lemma2_to64();
    lemma_read_written(start as int, 64, body);
    lemma_blocks_round_trip(State::initial(start), samples, rest);
    assert(encoding(start, samples) + rest =~= header(start) + body);
}

/// Round trip through bytes: the packed stream of such a series, unpacked,
/// is read as the series.
pub proof fn lemma_round_trip_bytes(start: u64, samples: Seq<Sample>)
    requires
        series_encodable(State::initial(start), samples),
    ensures
        parse_stream(unpack(pack(encoding(start, samples)))) == Ok::<_, DecodeError>(
            (start, samples),
        ),
{
    let stream = encoding(start, samples);
    lemma_unpack_pack(stream);
    lemma_round_trip(start, samples, zeros(((8 - stream.len() % 8) % 8) as nat));
}

/// No timestamp code is mistaken for the end marker: the one form that
/// shares its prefix is written only for a change that is not zero.
pub proof fn lemma_end_marker_distinct(delta: u64, last_delta: u64, rest: Seq<bool>)
    ensures
        !end_marker().is_prefix_of(timestamp_code(delta_of_delta(delta, last_delta)) + rest),
{
    reveal(timestamp_code);
    let dod = delta_of_delta(delta, last_delta);
    let code = timestamp_code(dod);
    let bits = code + rest;
    lemma_end_marker();
    lemma2_to64();
    if end_marker().is_prefix_of(bits) {
        let marker = end_marker();
        assert(marker =~= bits.subrange(0, 36));
        assert(forall|i: int| 0 <= i < 36 ==> marker[i] == bits[i]);
        assert(marker[0] && marker[1] && marker[2] && marker[3]);
        assert(bits[0] && bits[1] && bits[2] && bits[3]);
        lemma_bits_of_len(dod, 7);
        lemma_bits_of_len(dod, 9);
        lemma_bits_of_len(dod, 12);
        lemma_bits_of_len(dod, 32);
        assert(code == seq![true, true, true, true] + bits_of(dod, 32));
        assert(bits_of(dod, 32) =~= bits.subrange(0, 36).skip(4));
        assert(bits_of(0, 32) =~= marker.skip(4));
        lemma_bits_value_of(dod, 32);
        lemma_bits_value_of(0, 32);
        assert(false);
    }
}

} // verus!

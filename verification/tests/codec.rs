use database::methods::format::{Sample, END_MARKER, END_MARKER_LEN};
use database::methods::int_decoder::{decode_all, StdDecoder};
use database::methods::int_encoder::{encode_all, StdEncoder};
use database::methods::parse::DecodeError;
use tsz::stream::{BufferedReader, BufferedWriter, Write};
use tsz::{Bit, DataPoint, Decode, Encode};

fn sample(timestamp: u64, value: f64) -> Sample {
    Sample { timestamp, value_bits: value.to_bits() }
}

fn scenario() -> Vec<Sample> {
    vec![sample(1000, 1.0), sample(1001, 1.0), sample(1002, 2.0)]
}

const SCENARIO_BYTES: [u8; 27] = [
    0, 0, 0, 0, 0, 0, 3, 232, 0, 0, 127, 224, 0, 0, 0, 0, 0, 1, 1, 48, 74, 255, 254, 0, 0, 0, 0,
];

fn mixed_start() -> u64 {
    1_500_000_000
}

fn mixed() -> Vec<Sample> {
    let s = mixed_start();
    vec![
        sample(s + 10, 12.5),
        sample(s + 20, 12.5),
        sample(s + 95, 13.0),
        sample(s + 400, 13.0),
        sample(s + 3000, -1.0),
        sample(s + 2_000_000, 1e300),
        sample(s + 2_000_001, 1e300),
        sample(s + 2_000_002, 12.5),
    ]
}

const MIXED_BYTES: [u8; 63] = [
    0, 0, 0, 0, 89, 104, 47, 0, 0, 20, 128, 82, 0, 0, 0, 0, 0, 0, 98, 14, 112, 62, 115, 60, 0, 0,
    35, 223, 0, 239, 253, 190, 0, 60, 221, 65, 129, 238, 14, 63, 33, 228, 64, 3, 172, 255, 255,
    195, 14, 114, 71, 195, 220, 135, 145, 0, 14, 179, 248, 0, 0, 0, 0,
];

fn written(build: impl FnOnce(&mut BufferedWriter)) -> Vec<u8> {
    let mut w = BufferedWriter::new();
    build(&mut w);
    w.close().into_vec()
}

fn first_block(w: &mut BufferedWriter) {
    w.write_bits(0, 64);
    w.write_bit(Bit::Zero);
    w.write_bits(0, 14);
    w.write_bits(1.0f64.to_bits(), 64);
}

fn next(state: &mut u64) -> u64 {
    *state ^= *state << 13;
    *state ^= *state >> 7;
    *state ^= *state << 17;
    *state
}

#[test]
fn scenario_is_encoded_bit_for_bit() {
    assert_eq!(encode_all(1000, &scenario()), SCENARIO_BYTES.to_vec());
}

#[test]
fn scenario_sample_by_sample() {
    let mut encoder = StdEncoder::new(1000);
    for s in scenario() {
        encoder.encode(s);
    }
    assert_eq!(encoder.close(), SCENARIO_BYTES.to_vec());
}

#[test]
fn scenario_is_decoded_exactly() {
    assert_eq!(decode_all(SCENARIO_BYTES.to_vec()), Ok((1000, scenario())));
}

#[test]
fn scenario_second_block_holds_the_first_step() {
    // bits 143..152 are the timestamp code of the second sample: the step
    // changed from 0 to 1, which is the prefix 10 and 0000001
    let bits: Vec<u8> = SCENARIO_BYTES
        .iter()
        .flat_map(|b| (0..8).map(move |i| (b >> (7 - i)) & 1))
        .collect();
    assert_eq!(bits[64], 0);
    assert_eq!(&bits[65..79], &[0u8; 14][..]);
    assert_eq!(&bits[143..152], &[1, 0, 0, 0, 0, 0, 0, 0, 1][..]);
    // its value is unchanged
    assert_eq!(bits[152], 0);
    // the third step is the same as the second
    assert_eq!(bits[153], 0);
    // the third value opens a window of eleven bits
    assert_eq!(&bits[154..156], &[1, 1][..]);
    assert_eq!(&bits[156..162], &[0, 0, 0, 0, 0, 1][..]);
    assert_eq!(&bits[162..168], &[0, 0, 1, 0, 1, 0][..]);
    assert_eq!(&bits[168..179], &[1u8; 11][..]);
    // the end marker, then padding
    assert_eq!(&bits[179..183], &[1u8; 4][..]);
    assert_eq!(&bits[183..216], &[0u8; 33][..]);
}

#[test]
fn mixed_series_is_encoded_bit_for_bit() {
    assert_eq!(encode_all(mixed_start(), &mixed()), MIXED_BYTES.to_vec());
}

#[test]
fn mixed_series_round_trip() {
    assert_eq!(decode_all(MIXED_BYTES.to_vec()), Ok((mixed_start(), mixed())));
}

#[test]
fn stream_without_samples() {
    let bytes = encode_all(1000, &Vec::new());
    assert_eq!(bytes, vec![0, 0, 0, 0, 0, 0, 3, 232, 240, 0, 0, 0, 0]);
    assert_eq!(decode_all(bytes), Ok((1000, Vec::new())));
}

#[test]
fn end_marker_is_four_ones_and_thirty_two_zeroes() {
    assert_eq!(END_MARKER, 0b1111u64 << 32);
    assert_eq!(END_MARKER_LEN, 36);
}

#[test]
fn decoder_hands_out_samples_one_by_one() {
    let reader = BufferedReader::new(SCENARIO_BYTES.to_vec().into_boxed_slice());
    let mut decoder = StdDecoder::new(reader).unwrap();
    assert_eq!(decoder.time(), 1000);
    assert_eq!(decoder.decode_next(), Ok(Some(sample(1000, 1.0))));
    assert_eq!(decoder.decode_next(), Ok(Some(sample(1001, 1.0))));
    assert_eq!(decoder.time(), 1001);
    assert_eq!(decoder.decode_next(), Ok(Some(sample(1002, 2.0))));
    assert_eq!(decoder.decode_next(), Ok(None));
    assert_eq!(decoder.decode_next(), Ok(None));
}

#[test]
fn header_shorter_than_a_timestamp() {
    let reader = BufferedReader::new(vec![0u8; 7].into_boxed_slice());
    assert!(matches!(StdDecoder::new(reader), Err(DecodeError::ChannelExhausted)));
    assert_eq!(decode_all(vec![0u8; 7]), Err(DecodeError::ChannelExhausted));
    assert_eq!(decode_all(Vec::new()), Err(DecodeError::ChannelExhausted));
}

#[test]
fn header_alone_is_exhausted() {
    assert_eq!(decode_all(vec![0u8; 8]), Err(DecodeError::ChannelExhausted));
}

#[test]
fn stream_cut_short_is_exhausted() {
    for keep in 8..SCENARIO_BYTES.len() - 4 {
        let bytes = SCENARIO_BYTES[..keep].to_vec();
        assert_eq!(decode_all(bytes), Err(DecodeError::ChannelExhausted), "kept {}", keep);
    }
}

#[test]
fn end_marker_cut_short_is_exhausted() {
    let bytes = written(|w| {
        w.write_bits(1000, 64);
        w.write_bits(0b1111, 4);
    });
    assert_eq!(decode_all(bytes), Err(DecodeError::ChannelExhausted));
}

#[test]
fn first_block_that_opens_with_a_one_is_malformed() {
    let bytes = written(|w| {
        w.write_bits(1000, 64);
        w.write_bits(0b1111, 4);
        w.write_bits(1, 32);
    });
    assert_eq!(decode_all(bytes), Err(DecodeError::MalformedControlCode));
}

#[test]
fn window_reused_before_any_is_malformed() {
    let bytes = written(|w| {
        first_block(w);
        w.write_bit(Bit::Zero);
        w.write_bits(0b10, 2);
        w.write_bits(0, 64);
        w.write_bits(END_MARKER, 36);
    });
    assert_eq!(decode_all(bytes), Err(DecodeError::MalformedControlCode));
}

#[test]
fn window_wider_than_a_value_is_malformed() {
    let bytes = written(|w| {
        first_block(w);
        w.write_bit(Bit::Zero);
        w.write_bits(0b11, 2);
        w.write_bits(63, 6);
        w.write_bits(63, 6);
        w.write_bits(0, 64);
        w.write_bits(END_MARKER, 36);
    });
    assert_eq!(decode_all(bytes), Err(DecodeError::MalformedControlCode));
}

#[test]
fn widest_window_is_read() {
    // no leading zeroes and 64 significant bits: the whole value changes
    let bytes = written(|w| {
        first_block(w);
        w.write_bit(Bit::Zero);
        w.write_bits(0b11, 2);
        w.write_bits(0, 6);
        w.write_bits(63, 6);
        w.write_bits(u64::MAX, 64);
        w.write_bits(END_MARKER, 36);
    });
    let expected = vec![
        sample(0, 1.0),
        Sample { timestamp: 0, value_bits: !1.0f64.to_bits() },
    ];
    assert_eq!(decode_all(bytes.clone()), Ok((0, expected.clone())));
    assert_eq!(encode_all(0, &expected), bytes);
}

#[test]
fn a_failed_decoder_stays_failed() {
    let bytes = SCENARIO_BYTES[..20].to_vec();
    let mut decoder = StdDecoder::new(BufferedReader::new(bytes.into_boxed_slice())).unwrap();
    assert_eq!(decoder.decode_next(), Ok(Some(sample(1000, 1.0))));
    assert_eq!(decoder.decode_next(), Ok(Some(sample(1001, 1.0))));
    assert_eq!(decoder.decode_next(), Err(DecodeError::ChannelExhausted));
    assert_eq!(decoder.decode_next(), Err(DecodeError::ChannelExhausted));
}

#[test]
fn bits_after_the_end_marker_are_ignored() {
    let mut bytes = SCENARIO_BYTES.to_vec();
    bytes.extend_from_slice(&[0xff, 0x12, 0x00]);
    assert_eq!(decode_all(bytes), Ok((1000, scenario())));
}

#[test]
fn first_step_of_fourteen_bits() {
    let bytes = encode_all(0, &vec![sample(16383, 0.0)]);
    assert_eq!(
        bytes,
        vec![0, 0, 0, 0, 0, 0, 0, 0, 127, 254, 0, 0, 0, 0, 0, 0, 0, 1, 224, 0, 0, 0, 0]
    );
    assert_eq!(decode_all(bytes), Ok((0, vec![sample(16383, 0.0)])));
}

#[test]
fn first_step_beyond_fourteen_bits_wraps() {
    let bytes = encode_all(0, &vec![sample(16384, 0.0)]);
    assert_eq!(
        bytes,
        vec![0, 0, 0, 0, 0, 0, 0, 0, 0, 0, 0, 0, 0, 0, 0, 0, 0, 1, 224, 0, 0, 0, 0]
    );
    // the framing holds, the timestamp is lost
    assert_eq!(decode_all(bytes), Ok((0, vec![sample(0, 0.0)])));
}

#[test]
fn changes_of_step_in_both_directions() {
    let changes: [i64; 17] = [
        1, -1, 64, -63, 65, -64, 256, -255, 257, -256, 2048, -2047, 2049, -2048, 1 << 31,
        -((1 << 31) - 1), 0,
    ];
    let base: u64 = 1 << 33;
    for change in changes {
        let start = 0u64;
        let first = 10u64;
        // the step from the first to the second sample is `base`; it is
        // built up by the largest changes that a code holds
        let mut samples = vec![sample(first, 0.5)];
        let mut time = first;
        let mut step: u64 = 10;
        while step < base {
            step = (step + (1 << 31)).min(base);
            time += step;
            samples.push(sample(time, 0.5));
        }
        let changed = (step as i64 + change) as u64;
        time += changed;
        samples.push(sample(time, 0.25));
        let bytes = encode_all(start, &samples);
        assert_eq!(decode_all(bytes), Ok((start, samples)), "change {}", change);
    }
}

#[test]
fn a_change_of_two_to_the_32_is_lost_but_not_the_framing() {
    let far = 30 + (1u64 << 32);
    let samples = vec![sample(10, 1.0), sample(20, 1.0), sample(far, 1.0), sample(far + 5, 2.0)];
    let bytes = encode_all(0, &samples);
    // the low 32 bits of the change are zero: it is written as no change,
    // and the next change as one from the true step
    let read = vec![
        sample(10, 1.0),
        sample(20, 1.0),
        sample(30, 1.0),
        sample(35 + (1u64 << 32), 2.0),
    ];
    let decoded = decode_all(bytes);
    assert!(decoded.is_ok());
    let (start, found) = decoded.unwrap();
    assert_eq!(start, 0);
    assert_eq!(found.len(), 4);
    assert_eq!(found[..3].to_vec(), read[..3].to_vec());
    assert_eq!(found[3].value_bits, 2.0f64.to_bits());
}

#[test]
fn timestamps_that_go_back_keep_the_framing() {
    let samples = vec![sample(1000, 1.0), sample(990, 2.0), sample(995, 3.0), sample(5, 4.0)];
    let bytes = encode_all(1000, &samples);
    assert_eq!(decode_all(bytes), Ok((1000, samples)));
}

#[test]
fn every_bit_pattern_of_a_value_comes_back() {
    let values: [u64; 12] = [
        0,
        1,
        u64::MAX,
        1 << 63,
        f64::NAN.to_bits(),
        f64::INFINITY.to_bits(),
        f64::NEG_INFINITY.to_bits(),
        (-0.0f64).to_bits(),
        f64::MIN_POSITIVE.to_bits(),
        0x7ff0_0000_0000_0001,
        0x0000_0000_ffff_0000,
        0x0000_0000_0ff0_0000,
    ];
    let mut samples = Vec::new();
    let mut time = 50;
    for a in values {
        for b in values {
            samples.push(Sample { timestamp: time, value_bits: a });
            samples.push(Sample { timestamp: time + 1, value_bits: b });
            time += 2;
        }
    }
    let bytes = encode_all(50, &samples);
    assert_eq!(decode_all(bytes), Ok((50, samples)));
}

#[test]
fn round_trip_of_generated_series() {
    let mut seed = 0x9e37_79b9_7f4a_7c15u64;
    for round in 0..200 {
        let start = next(&mut seed) >> 20;
        let mut time = start + next(&mut seed) % 16384;
        let mut step: u64 = 0;
        let mut value = next(&mut seed);
        let mut samples = Vec::new();
        let len = next(&mut seed) % 40;
        for i in 0..len {
            samples.push(Sample { timestamp: time, value_bits: value });
            let wide = [3u64, 100, 400, 3000, 1 << 20, 1 << 31][(next(&mut seed) % 6) as usize];
            let up = next(&mut seed) % wide;
            let down = next(&mut seed) % (step.min(wide) + 1);
            step = if i == 0 { up } else { step + up - down.min(step + up) };
            step = step.min((1 << 31) - 1);
            time += step;
            value = match next(&mut seed) % 4 {
                0 => value,
                1 => value ^ (next(&mut seed) & 0x0000_0fff_ff00_0000),
                2 => value ^ (1 << (next(&mut seed) % 64)),
                _ => next(&mut seed),
            };
        }
        let bytes = encode_all(start, &samples);
        assert_eq!(decode_all(bytes), Ok((start, samples)), "round {}", round);
    }
}

#[test]
fn streams_are_read_by_the_tsz_decoder() {
    for (start, samples, bytes) in [
        (1000, scenario(), SCENARIO_BYTES.to_vec()),
        (mixed_start(), mixed(), MIXED_BYTES.to_vec()),
    ] {
        assert_eq!(encode_all(start, &samples), bytes);
        let mut decoder = tsz::StdDecoder::new(BufferedReader::new(bytes.into_boxed_slice()));
        let mut found = Vec::new();
        loop {
            match decoder.next() {
                Ok(dp) => found.push(sample(dp.get_time(), dp.get_value())),
                Err(tsz::decode::Error::EndOfStream) => break,
                Err(e) => panic!("{:?}", e),
            }
        }
        assert_eq!(found, samples);
    }
}

#[test]
fn streams_of_the_tsz_encoder_are_read() {
    for (start, samples) in [(1000, scenario()), (mixed_start(), mixed())] {
        let mut encoder = tsz::StdEncoder::new(start, BufferedWriter::new());
        for s in &samples {
            encoder.encode(DataPoint::new(s.timestamp, f64::from_bits(s.value_bits)));
        }
        let bytes = encoder.close().into_vec();
        assert_eq!(bytes, encode_all(start, &samples));
        assert_eq!(decode_all(bytes), Ok((start, samples)));
    }
}

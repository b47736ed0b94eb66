//! The bit channel that the codec writes to and reads from: the buffered
//! writer and reader of the `tsz` crate, known to the verifier only through
//! the contracts stated here. None of these contracts is proved. A write or a
//! read is also taken not to unwind: the codec holds its channel in a type
//! with an invariant.

use vstd::prelude::*;
use tsz::stream::{BufferedReader, BufferedWriter, Read, Write};
use tsz::Bit;
use crate::methods::bits::{bits_of, bits_value, zeros};

verus! {

/// `tsz::stream::BufferedWriter`, taken as opaque: what it holds is spoken of
/// through `writer_bits` and `writer_ready`.
#[verifier::external_type_specification]
#[verifier::external_body]
pub struct ExBufferedWriter(tsz::stream::BufferedWriter);

/// `tsz::stream::BufferedReader`, taken as opaque: what it holds is spoken of
/// through `reader_bits`.
#[verifier::external_type_specification]
#[verifier::external_body]
pub struct ExBufferedReader(tsz::stream::BufferedReader);

/// `tsz::stream::Error`, taken as opaque: a read that fails ran out of bits.
#[verifier::external_type_specification]
#[verifier::external_body]
pub struct ExStreamError(tsz::stream::Error);

/// The bits written to `w` so far, first written first.
pub uninterp spec fn writer_bits(w: BufferedWriter) -> Seq<bool>;

/// Whether `w` is in a state that `BufferedWriter::new` and the writes after
/// it lead to. A writer made by `Default` is not: it claims room in a byte
/// that its empty buffer does not have, and a write to it indexes out of
/// bounds.
pub uninterp spec fn writer_ready(w: BufferedWriter) -> bool;

/// The bits of `r` that have not been read yet, next to be read first.
pub uninterp spec fn reader_bits(r: BufferedReader) -> Seq<bool>;

/// `bits` filled up with zero bits to a whole number of bytes.
pub open spec fn padded(bits: Seq<bool>) -> Seq<bool> {
    bits + zeros(((8 - bits.len() % 8) % 8) as nat)
}

/// The bytes that hold `bits`, eight to a byte and the first bit highest, the
/// last byte filled up with zero bits.
pub open spec fn pack(bits: Seq<bool>) -> Seq<u8> {
    Seq::new(
        (bits.len() + 7) / 8,
        |j: int| bits_value(padded(bits).subrange(8 * j, 8 * j + 8)) as u8,
    )
}

/// The bits of `bytes`, the highest bit of each byte first.
pub open spec fn unpack(bytes: Seq<u8>) -> Seq<bool> {
    Seq::new(8 * bytes.len(), |i: int| bits_of(bytes[i / 8] as int, 8)[i % 8])
}

/// `BufferedWriter::new`: a writer that nothing was written to.
#[verifier::external_body]
pub(crate) fn new_writer() -> (w: BufferedWriter)
    ensures
        writer_ready(w),
        writer_bits(w) == Seq::<bool>::empty(),
{
    BufferedWriter::new()
}

/// `BufferedWriter::write_bit`: appends one bit.
#[verifier::external_body]
pub(crate) fn write_bit(w: &mut BufferedWriter, bit: bool)
    requires
        writer_ready(*old(w)),
    ensures
        writer_ready(*final(w)),
        writer_bits(*final(w)) == writer_bits(*old(w)).push(bit),
    no_unwind
{
    match bit {
        true => w.write_bit(Bit::One),
        false => w.write_bit(Bit::Zero),
    }
}

/// `BufferedWriter::write_bits`: appends the low `num` bits of `value`, the
/// highest of them first. (Asked for more than 64 bits it writes 64; that is
/// left out here.)
#[verifier::external_body]
pub(crate) fn write_bits(w: &mut BufferedWriter, value: u64, num: u32)
    requires
        writer_ready(*old(w)),
        num <= 64,
    ensures
        writer_ready(*final(w)),
        writer_bits(*final(w)) == writer_bits(*old(w)) + bits_of(value as int, num as nat),
    no_unwind
{
    w.write_bits(value, num)
}

/// `BufferedWriter::close`: hands out the buffer. Every written bit is in it
/// at its place, and the bits of the last byte that were never written are
/// zero, as the writer appends zeroed bytes and only ever sets bits.
#[verifier::external_body]
pub(crate) fn close_writer(w: BufferedWriter) -> (bytes: Vec<u8>)
    requires
        writer_ready(w),
    ensures
        bytes@ == pack(writer_bits(w)),
{
    w.close().into_vec()
}

/// `BufferedReader::new`: a reader at the first bit of `bytes`.
#[verifier::external_body]
pub(crate) fn new_reader(bytes: Vec<u8>) -> (r: BufferedReader)
    ensures
        reader_bits(r) == unpack(bytes@),
{
    BufferedReader::new(bytes.into_boxed_slice())
}

/// `BufferedReader::read_bit`: the next bit, or an error when none is left.
/// Nothing is said of the reader after an error.
#[verifier::external_body]
pub(crate) fn read_bit(r: &mut BufferedReader) -> (res: Result<bool, tsz::stream::Error>)
    ensures
        res is Ok <==> reader_bits(*old(r)).len() >= 1,
        res is Ok ==> res->Ok_0 == reader_bits(*old(r))[0],
        res is Ok ==> reader_bits(*final(r)) == reader_bits(*old(r)).skip(1),
    no_unwind
{
    match r.read_bit() {
        Ok(Bit::One) => Ok(true),
        Ok(Bit::Zero) => Ok(false),
        Err(e) => Err(e),
    }
}

/// `BufferedReader::read_bits`: the next `num` bits as a number, the first
/// read bit highest, or an error when fewer than `num` are left. Nothing is
/// said of the reader after an error.
#[verifier::external_body]
pub(crate) fn read_bits(r: &mut BufferedReader, num: u32) -> (res: Result<u64, tsz::stream::Error>)
    requires
        num <= 64,
    ensures
        res is Ok <==> reader_bits(*old(r)).len() >= num,
        res is Ok ==> res->Ok_0 == bits_value(reader_bits(*old(r)).take(num as int)),
        res is Ok ==> reader_bits(*final(r)) == reader_bits(*old(r)).skip(num as int),
    no_unwind
{
    r.read_bits(num)
}

} // verus!

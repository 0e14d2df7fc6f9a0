//! A big-endian bit writer over a byte vector.

use crate::bits::{align_pad, be_bits, pack_bytes, zeros};
use bitstream_io::{BigEndian, BitWrite, BitWriter};
use vstd::arithmetic::power2::pow2;
use vstd::prelude::*;

verus! {

/// A `bitstream_io::BitWriter` that writes into a `Vec<u8>`, most
/// significant bit first. Its state is not read here: what is known of it
/// is what the methods below state about `written`.
#[verifier::external_body]
pub struct BitSink {
    writer: BitWriter<Vec<u8>, BigEndian>,
}

/// All bits handed to the writer so far, in order, those of an unfinished
/// byte included.
pub uninterp spec fn written(sink: BitSink) -> Seq<bool>;

impl BitSink {
    /// `BitWriter::endian` on an empty vector: nothing is written yet.
    #[verifier::external_body]
    pub(crate) fn new() -> (sink: BitSink)
        ensures
            written(sink) == Seq::<bool>::empty(),
    {
        BitSink { writer: BitWriter::endian(Vec::new(), BigEndian) }
    }

    /// `BitWrite::write` with a `u32` value: appends the `width` lowest bits
    /// of `value`, most significant first. The call fails where `width`
    /// exceeds 32 or `value` does not fit into `width` bits, so both are
    /// required; writing into a vector cannot fail otherwise.
    #[verifier::external_body]
    pub(crate) fn write(&mut self, width: u32, value: u32)
        requires
            width <= 32,
            width < 32 ==> value < pow2(width as nat),
        ensures
            written(*final(self)) == written(*old(self)) + be_bits(value as nat, width as nat),
    {
        self.writer.write(width, value).unwrap()
    }

    /// `BitWrite::byte_align`: appends zero bits up to the next byte
    /// boundary, none where the writer stands on one.
    #[verifier::external_body]
    pub(crate) fn byte_align(&mut self)
        ensures
            written(*final(self)) == written(*old(self)) + zeros(
                align_pad(written(*old(self)).len()),
            ),
    {
        self.writer.byte_align().unwrap()
    }

    /// `BitWriter::into_writer`: the bytes written, each holding eight bits
    /// with the first as the most significant. Bits of an unfinished byte
    /// are dropped.
    #[verifier::external_body]
    pub(crate) fn into_writer(self) -> (bytes: Vec<u8>)
        ensures
            bytes@ == pack_bytes(written(self)),
    {
        self.writer.into_writer()
    }
}

} // verus!

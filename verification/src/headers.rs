//! Stream-level metadata blocks and their validated field types.
//!
//! The stream header consists of generic metadata-block headers followed by
//! the mandatory 34-byte stream-info payload; a padding block of zero bytes
//! may follow.  All numeric parameters are validated once, at construction.

use vstd::prelude::*;

use crate::bits::{bytes_bits, low_bits, zero_bits};
use crate::bits::{lemma_low_bits_byte, lemma_low_bits_flag, lemma_low_bits_zero};
use crate::bitwriter::{bit_cap, BitWriter};

verus! {

/// A block size in samples; the container format forbids sizes below 16.
#[derive(Clone, Copy, Debug, Hash, PartialEq, Eq, PartialOrd, Ord, Structural)]
pub struct BlockSize(u16);

impl BlockSize {
    pub closed spec fn spec_inner(self) -> u16 {
        self.0
    }

    #[verifier::type_invariant]
    spec fn inv(self) -> bool {
        self.0 >= 16
    }

    pub fn new(val: u16) -> (r: Option<BlockSize>)
        ensures
            r.is_some() <==> val >= 16,
            r matches Some(b) ==> b.spec_inner() == val,
    {
        if val >= 16 {
            Some(BlockSize(val))
        } else {
            None
        }
    }

    pub fn inner(self) -> (r: u16)
        ensures r == self.spec_inner(), r >= 16,
    {
        proof { use_type_invariant(self); }
        self.0
    }
}

/// A frame size in bytes, stored in a 24-bit field; zero means unknown.
#[derive(Clone, Copy, Debug, Hash, PartialEq, Eq, PartialOrd, Ord, Structural)]
pub struct FrameSize(u32);

impl FrameSize {
    pub closed spec fn spec_inner(self) -> u32 {
        self.0
    }

    #[verifier::type_invariant]
    spec fn inv(self) -> bool {
        self.0 <= 0xff_ffff
    }

    pub fn new(val: u32) -> (r: Option<FrameSize>)
        ensures
            r.is_some() <==> val <= 0xff_ffff,
            r matches Some(f) ==> f.spec_inner() == val,
    {
        if val <= 0xff_ffff {
            Some(FrameSize(val))
        } else {
            None
        }
    }

    pub fn inner(self) -> (r: u32)
        ensures r == self.spec_inner(), r <= 0xff_ffff,
    {
        proof { use_type_invariant(self); }
        self.0
    }
}

/// A sample rate in hertz.  Though the field offers 20 bits, the frame
/// header structure caps the rate at 655350 Hz, and zero is invalid.
#[derive(Clone, Copy, Debug, Hash, PartialEq, Eq, PartialOrd, Ord, Structural)]
pub struct SampleRate(u32);

impl SampleRate {
    pub closed spec fn spec_inner(self) -> u32 {
        self.0
    }

    #[verifier::type_invariant]
    spec fn inv(self) -> bool {
        0 < self.0 <= 655350
    }

    pub fn new(val: u32) -> (r: Option<SampleRate>)
        ensures
            r.is_some() <==> (0 < val <= 655350),
            r matches Some(s) ==> s.spec_inner() == val,
    {
        if val > 0 && val <= 655350 {
            Some(SampleRate(val))
        } else {
            None
        }
    }

    pub fn inner(self) -> (r: u32)
        ensures r == self.spec_inner(), 0 < r <= 655350,
    {
        proof { use_type_invariant(self); }
        self.0
    }
}

/// From one to eight channels.
#[derive(Clone, Copy, Debug, Hash, PartialEq, Eq, PartialOrd, Ord, Structural)]
pub enum ChannelCount {
    One,
    Two,
    Three,
    Four,
    Five,
    Six,
    Seven,
    Eight,
}

impl ChannelCount {
    pub open spec fn spec_count(self) -> u8 {
        match self {
            ChannelCount::One => 1,
            ChannelCount::Two => 2,
            ChannelCount::Three => 3,
            ChannelCount::Four => 4,
            ChannelCount::Five => 5,
            ChannelCount::Six => 6,
            ChannelCount::Seven => 7,
            ChannelCount::Eight => 8,
        }
    }

    pub fn new(ct: u64) -> (r: Option<ChannelCount>)
        ensures
            r.is_some() <==> (1 <= ct <= 8),
            r matches Some(c) ==> c.spec_count() == ct,
    {
        match ct {
            1 => Some(ChannelCount::One),
            2 => Some(ChannelCount::Two),
            3 => Some(ChannelCount::Three),
            4 => Some(ChannelCount::Four),
            5 => Some(ChannelCount::Five),
            6 => Some(ChannelCount::Six),
            7 => Some(ChannelCount::Seven),
            8 => Some(ChannelCount::Eight),
            _ => None,
        }
    }

    pub fn count(self) -> (r: u8)
        ensures r == self.spec_count(), 1 <= r <= 8,
    {
        match self {
            ChannelCount::One => 1,
            ChannelCount::Two => 2,
            ChannelCount::Three => 3,
            ChannelCount::Four => 4,
            ChannelCount::Five => 5,
            ChannelCount::Six => 6,
            ChannelCount::Seven => 7,
            ChannelCount::Eight => 8,
        }
    }
}

/// From 4 to 32 bits per sample.
#[derive(Clone, Copy, Debug, Hash, PartialEq, Eq, PartialOrd, Ord, Structural)]
pub struct BitsPerSample(u8);

impl BitsPerSample {
    pub closed spec fn spec_inner(self) -> u8 {
        self.0
    }

    #[verifier::type_invariant]
    spec fn inv(self) -> bool {
        4 <= self.0 <= 32
    }

    pub fn new(val: u8) -> (r: Option<BitsPerSample>)
        ensures
            r.is_some() <==> (4 <= val <= 32),
            r matches Some(b) ==> b.spec_inner() == val,
    {
        if val >= 4 && val <= 32 {
            Some(BitsPerSample(val))
        } else {
            None
        }
    }

    pub fn inner(self) -> (r: u8)
        ensures r == self.spec_inner(), 4 <= r <= 32,
    {
        proof { use_type_invariant(self); }
        self.0
    }
}

/// The total number of samples in the stream, when known; the 36-bit field
/// stores zero for an unknown count.
#[derive(Clone, Copy, Debug, Hash, PartialEq, Eq, PartialOrd, Ord, Structural)]
pub enum SamplesInStream {
    Unknown,
    /// A non-zero count below `2^36`.
    Count(u64),
}

impl SamplesInStream {
    pub open spec fn wf(self) -> bool {
        match self {
            SamplesInStream::Unknown => true,
            SamplesInStream::Count(n) => 0 < n < 0x10_0000_0000,
        }
    }

    /// The value stored in the 36-bit field.
    pub open spec fn spec_total(self) -> u64
        recommends self.wf(),
    {
        match self {
            SamplesInStream::Unknown => 0,
            SamplesInStream::Count(n) => n,
        }
    }

    pub fn new(val: u64) -> (r: Option<SamplesInStream>)
        ensures
            r.is_some() <==> val < 0x10_0000_0000,
            r matches Some(s) ==> s.wf() && s.spec_total() == val,
    {
        if val == 0 {
            Some(SamplesInStream::Unknown)
        } else if val < 0x10_0000_0000 {
            Some(SamplesInStream::Count(val))
        } else {
            None
        }
    }

    pub fn inner(self) -> (r: u64)
        requires self.wf(),
        ensures r == self.spec_total(), r < 0x10_0000_0000,
    {
        match self {
            SamplesInStream::Unknown => 0,
            SamplesInStream::Count(n) => n,
        }
    }
}

/// The bits of a generic metadata-block header: a last-block flag, a 7-bit
/// block type and a 24-bit payload length.
pub open spec fn metadata_header_bits(last_header: bool, block_type: u8, len: u32) -> Seq<bool> {
    seq![last_header] + low_bits(block_type as u64, 7) + low_bits(len as u64, 24)
}

/// Writes a generic metadata-block header.
pub fn put_metadata_header(block_type: u8, last_header: bool, len: u32, writer: &mut BitWriter)
    requires
        block_type < 127,
        len <= 0xff_ffff,
        old(writer).wf(),
        old(writer)@.len() + 32 <= bit_cap(),
    ensures
        final(writer).wf(),
        final(writer)@ == old(writer)@ + metadata_header_bits(last_header, block_type, len),
{
    writer.put(1, if last_header { 1 } else { 0 });
    proof {
        lemma_low_bits_flag(last_header);
    }
    writer.put(7, block_type as u64);
    writer.put(24, len as u64);
    proof {
        assert(old(writer)@ + seq![last_header] + low_bits(block_type as u64, 7)
            + low_bits(len as u64, 24)
            =~= old(writer)@ + metadata_header_bits(last_header, block_type, len));
    }
}

/// The mandatory first metadata block: global stream parameters and the
/// MD5 placeholder, 34 bytes of payload.
#[derive(Clone, Copy, Debug)]
pub struct MetadataBlockStreamInfo {
    pub min_block_size: BlockSize,
    pub max_block_size: BlockSize,

    pub min_frame_size: FrameSize,
    pub max_frame_size: FrameSize,

    pub sample_rate: SampleRate,
    pub channels: ChannelCount,

    pub bits_per_sample: BitsPerSample,
    pub samples_in_stream: SamplesInStream,

    /// The digest of the raw samples, zero until stream finalisation
    /// patches it in place.
    pub md5_signature: [u8; 16],
}

impl MetadataBlockStreamInfo {
    pub open spec fn wf(self) -> bool {
        self.samples_in_stream.wf()
    }

    /// The bits of the whole stream-info block, generic header included.
    pub open spec fn spec_bits(self, last_header: bool) -> Seq<bool> {
        metadata_header_bits(last_header, 0, 34)
            + low_bits(self.min_block_size.spec_inner() as u64, 16)
            + low_bits(self.max_block_size.spec_inner() as u64, 16)
            + low_bits(self.min_frame_size.spec_inner() as u64, 24)
            + low_bits(self.max_frame_size.spec_inner() as u64, 24)
            + low_bits(self.sample_rate.spec_inner() as u64, 20)
            + low_bits((self.channels.spec_count() - 1) as u64, 3)
            + low_bits((self.bits_per_sample.spec_inner() - 1) as u64, 5)
            + low_bits(self.samples_in_stream.spec_total(), 36)
            + bytes_bits(self.md5_signature@)
    }

    /// Writes the generic header and the 34-byte payload.
    pub fn put_into(&self, last_header: bool, writer: &mut BitWriter)
        requires
            self.wf(),
            old(writer).wf(),
            old(writer)@.len() + 32 + 34 * 8 <= bit_cap(),
        ensures
            final(writer).wf(),
            final(writer)@ == old(writer)@ + self.spec_bits(last_header),
    {
        put_metadata_header(0, last_header, self.len() as u32, writer);
        writer.put(16, self.min_block_size.inner() as u64);
        writer.put(16, self.max_block_size.inner() as u64);
        writer.put(24, self.min_frame_size.inner() as u64);
        writer.put(24, self.max_frame_size.inner() as u64);
        writer.put(20, self.sample_rate.inner() as u64);
        writer.put(3, (self.channels.count() - 1) as u64);
        writer.put(5, (self.bits_per_sample.inner() - 1) as u64);
        writer.put(36, self.samples_in_stream.inner());
        let ghost before_md5 = writer@;
        let mut i: usize = 0;
        while i < 16
            invariant
                i <= 16,
                writer.wf(),
                writer@ == before_md5 + bytes_bits(self.md5_signature@.take(i as int)),
                before_md5.len() + 16 * 8 <= bit_cap(),
            decreases 16 - i,
        {
            proof {
                crate::bits::lemma_bytes_bits_len(self.md5_signature@.take(i as int));
            }
            writer.put(8, self.md5_signature[i] as u64);
            proof {
                lemma_low_bits_byte(self.md5_signature@[i as int]);
                crate::bits::lemma_bytes_bits_push(
                    self.md5_signature@.take(i as int),
                    self.md5_signature@[i as int],
                );
                assert(self.md5_signature@.take(i as int).push(self.md5_signature@[i as int])
                    =~= self.md5_signature@.take(i + 1));
                assert(before_md5 + bytes_bits(self.md5_signature@.take(i as int))
                    + crate::bits::byte_bits(self.md5_signature@[i as int])
                    =~= before_md5 + bytes_bits(self.md5_signature@.take(i + 1)));
            }
            i = i + 1;
        }
        proof {
            assert(self.md5_signature@.take(16) =~= self.md5_signature@);
            assert(old(writer)@ + metadata_header_bits(last_header, 0, 34)
                + low_bits(self.min_block_size.spec_inner() as u64, 16)
                + low_bits(self.max_block_size.spec_inner() as u64, 16)
                + low_bits(self.min_frame_size.spec_inner() as u64, 24)
                + low_bits(self.max_frame_size.spec_inner() as u64, 24)
                + low_bits(self.sample_rate.spec_inner() as u64, 20)
                + low_bits((self.channels.spec_count() - 1) as u64, 3)
                + low_bits((self.bits_per_sample.spec_inner() - 1) as u64, 5)
                + low_bits(self.samples_in_stream.spec_total(), 36)
                + bytes_bits(self.md5_signature@)
                =~= old(writer)@ + self.spec_bits(last_header));
        }
    }

    /// The payload length in bytes.
    pub fn len(&self) -> (r: usize)
        ensures r == 34,
    {
        34
    }
}


/// An unimplemented optional block: seeking is out of scope.
pub struct MetadataBlockSeekTable {
    pub seekpoints: Vec<Seekpoint>,
}

/// One entry of a seek table.
pub struct Seekpoint {
    /// Sample number of the first sample in the target frame.
    pub sample_number: u64,
    /// Offset in bytes from the first frame header to the target frame.
    pub byte_offset: u64,
    /// Number of samples in the target frame.
    pub sample_count: u16,
}

/// A run of zero padding bytes, at most `2^24 - 1` of them.
pub struct MetadataBlockPadding {
    count: u32,
}

impl MetadataBlockPadding {
    pub closed spec fn spec_count(self) -> u32 {
        self.count
    }

    #[verifier::type_invariant]
    spec fn inv(self) -> bool {
        self.count <= 0xff_ffff
    }

    pub fn new(count: u32) -> (r: MetadataBlockPadding)
        requires count <= 0xff_ffff,
        ensures r.spec_count() == count,
    {
        MetadataBlockPadding { count }
    }

    /// The bits of the whole padding block: header, then zero bytes.
    pub open spec fn spec_bits(self, last_header: bool) -> Seq<bool> {
        metadata_header_bits(last_header, 1, self.spec_count())
            + zero_bits((8 * self.spec_count()) as nat)
    }

    pub fn put_into(&self, last_header: bool, writer: &mut BitWriter)
        requires
            old(writer).wf(),
            old(writer)@.len() + 32 + 8 * self.spec_count() <= bit_cap(),
        ensures
            final(writer).wf(),
            final(writer)@ == old(writer)@ + self.spec_bits(last_header),
    {
        proof { use_type_invariant(self); }
        let count = self.count;
        put_metadata_header(1, last_header, count, writer);
        let ghost after_header = writer@;
        let mut written: u32 = 0;
        while written < count
            invariant
                written <= count,
                writer.wf(),
                writer@ == after_header + zero_bits((8 * written) as nat),
                after_header.len() + 8 * count <= bit_cap(),
            decreases count - written,
        {
            writer.put(8, 0);
            proof {
                lemma_low_bits_zero(8);
                assert(after_header + zero_bits((8 * written) as nat) + zero_bits(8)
                    =~= after_header + zero_bits((8 * (written + 1)) as nat));
            }
            written = written + 1;
        }
        proof {
            assert(old(writer)@ + metadata_header_bits(last_header, 1, count)
                + zero_bits((8 * count) as nat)
                =~= old(writer)@ + self.spec_bits(last_header));
        }
    }

    /// The payload length in bytes.
    pub fn len(&self) -> (r: usize)
        ensures r == self.spec_count(),
    {
        self.count as usize
    }
}

/// An optional metadata block.  Only padding can be serialized; seek
/// tables are carried but never written, being out of scope.
pub enum MetadataBlock {
    SeekTable(MetadataBlockSeekTable),
    Padding(MetadataBlockPadding),
}

impl MetadataBlock {
    pub open spec fn spec_bits(self, last_header: bool) -> Seq<bool>
        recommends self is Padding,
    {
        match self {
            MetadataBlock::SeekTable(_) => Seq::empty(),
            MetadataBlock::Padding(p) => p.spec_bits(last_header),
        }
    }

    pub fn put_into(&self, last_header: bool, writer: &mut BitWriter)
        requires
            self is Padding,
            old(writer).wf(),
            old(writer)@.len() + 32 + 8 * self->Padding_0.spec_count() <= bit_cap(),
        ensures
            final(writer).wf(),
            final(writer)@ == old(writer)@ + self.spec_bits(last_header),
    {
        match self {
            MetadataBlock::SeekTable(_) => {
                proof { assert(false); }
            }
            MetadataBlock::Padding(padding) => padding.put_into(last_header, writer),
        }
    }

    /// The payload length in bytes.
    pub fn len(&self) -> (r: usize)
        requires self is Padding,
        ensures r == self->Padding_0.spec_count(),
    {
        match self {
            MetadataBlock::SeekTable(_) => {
                proof { assert(false); }
                0
            }
            MetadataBlock::Padding(padding) => padding.len(),
        }
    }
}

} // verus!

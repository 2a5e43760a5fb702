//! Stream-level assembly: the magic marker, the metadata headers, whole
//! frames as byte chunks, and the digest over the raw samples that stream
//! finalisation patches into the stream-info block.

use vstd::prelude::*;

use md5::Digest;

use crate::bits::{bytes_bits, low_bits, zero_bits};
use crate::bitwriter::{bit_cap, BitWriter};
use crate::frame::Frame;
use crate::headers::{MetadataBlock, MetadataBlockStreamInfo};

verus! {

/// The 128-bit digest of a byte sequence, as 16 bytes.
pub uninterp spec fn md5_of(data: Seq<u8>) -> Seq<u8>;

/// What has been fed into a running digest so far.
pub uninterp spec fn md5_fed(ctx: Md5Context) -> Seq<u8>;

/// An incremental digest over the raw samples of the stream.  The outside
/// digest state is held opaquely; `md5_fed` names what it has consumed.
#[verifier::external_body]
pub struct Md5Context {
    inner: md5::Md5,
}

impl Md5Context {
    /// Relies on `md5::Md5::new`: a fresh digest has processed nothing.
    #[verifier::external_body]
    fn new_inner() -> (r: Md5Context)
        ensures
            md5_fed(r) == Seq::<u8>::empty(),
    {
        Md5Context { inner: md5::Md5::new() }
    }

    /// Relies on `md5::Md5::update` (through the digest interface): the
    /// bytes are appended to what the digest has processed.
    #[verifier::external_body]
    fn update_inner(&mut self, data: &[u8])
        ensures
            md5_fed(*final(self)) == md5_fed(*old(self)) + data@,
    {
        self.inner.update(data);
    }

    /// Relies on `md5::Md5::finalize`: the result is the 16-byte digest of
    /// everything processed, a function of those bytes alone.
    #[verifier::external_body]
    fn finalize_inner(self) -> (r: [u8; 16])
        ensures
            r@ == md5_of(md5_fed(self)),
            r@.len() == 16,
    {
        self.inner.finalize().into()
    }

    pub fn new() -> (r: Md5Context)
        ensures md5_fed(r) == Seq::<u8>::empty(),
    {
        Md5Context::new_inner()
    }

    /// Feeds one chunk of raw interleaved sample bytes.
    pub fn update(&mut self, data: &[u8])
        ensures md5_fed(*final(self)) == md5_fed(*old(self)) + data@,
    {
        self.update_inner(data)
    }

    /// The digest of everything fed, for patching into the stream header.
    pub fn finalize(self) -> (r: [u8; 16])
        ensures
            r@ == md5_of(md5_fed(self)),
            r@.len() == 16,
    {
        self.finalize_inner()
    }
}

/// The bits of a run of optional metadata blocks; the last one carries
/// the last-block flag.
pub open spec fn blocks_bits(bs: Seq<MetadataBlock>) -> Seq<bool>
    decreases bs.len(),
{
    if bs.len() == 0 {
        Seq::empty()
    } else {
        bs[0].spec_bits(bs.len() == 1) + blocks_bits(bs.drop_first())
    }
}

/// The bits of the whole stream header: the magic marker, the mandatory
/// stream-info block, then the optional blocks.
pub open spec fn stream_header_bits(
    stream_info: MetadataBlockStreamInfo,
    blocks: Seq<MetadataBlock>,
) -> Seq<bool> {
    low_bits(0x664c_6143, 32) + stream_info.spec_bits(blocks.len() == 0) + blocks_bits(blocks)
}

/// Every block is padding, small enough to serialize.
pub open spec fn blocks_writable(bs: Seq<MetadataBlock>) -> bool {
    forall|i: int| 0 <= i < bs.len() ==> (#[trigger] bs[i]) is Padding
        && bs[i]->Padding_0.spec_count() <= 0xff_ffff
}

proof fn lemma_blocks_bits_aligned(bs: Seq<MetadataBlock>)
    requires blocks_writable(bs),
    ensures
        blocks_bits(bs).len() % 8 == 0,
        blocks_bits(bs).len() <= bs.len() * 0x800_0020,
    decreases bs.len(),
{
    if bs.len() > 0 {
        assert(bs[0] is Padding);
        assert(blocks_writable(bs.drop_first()));
        lemma_blocks_bits_aligned(bs.drop_first());
        let head = bs[0].spec_bits(bs.len() == 1);
        assert(head.len() == 32 + 8 * bs[0]->Padding_0.spec_count());
        assert((bs.len() - 1) * 0x800_0020 + 0x800_0020 == bs.len() * 0x800_0020)
            by (nonlinear_arith);
    }
}

/// Assembles the stream header: the magic marker, the stream-info block,
/// and any padding blocks, as finished bytes.  A padding block takes at
/// most `0x800_0020` bits, so 127 of them are the most the writer's bit
/// budget can hold alongside the fixed header.
pub fn stream_header_bytes(
    stream_info: &MetadataBlockStreamInfo,
    blocks: &Vec<MetadataBlock>,
) -> (r: Vec<u8>)
    requires
        stream_info.wf(),
        blocks_writable(blocks@),
        blocks@.len() <= 127,
    ensures
        bytes_bits(r@) == stream_header_bits(*stream_info, blocks@),
{
    let mut w = BitWriter::with_capacity(4096);
    proof {
        lemma_blocks_bits_aligned(blocks@);
    }
    w.put(32, 0x664c_6143);
    let last = blocks.len() == 0;
    stream_info.put_into(last, &mut w);
    let ghost prefix = low_bits(0x664c_6143, 32) + stream_info.spec_bits(last);
    proof {
        crate::bits::lemma_bytes_bits_len(stream_info.md5_signature@);
        assert(w@ =~= prefix);
        assert(prefix.len() == 336);
        assert(blocks@.skip(0) =~= blocks@);
    }
    let m = blocks.len();
    let mut i: usize = 0;
    while i < m
        invariant
            i <= m,
            m == blocks@.len() <= 127,
            blocks_writable(blocks@),
            w.wf(),
            prefix.len() == 336,
            w@.len() <= 336 + i * 0x800_0020,
            prefix + blocks_bits(blocks@) == w@ + blocks_bits(blocks@.skip(i as int)),
        decreases m - i,
    {
        let is_last = i + 1 == m;
        proof {
            assert(blocks@[i as int] is Padding);
            lemma_blocks_bits_skip_step(blocks@, i as int);
            assert(i * 0x800_0020 + 0x800_0020 == (i + 1) * 0x800_0020) by (nonlinear_arith);
            assert((i + 1) * 0x800_0020 <= 127 * 0x800_0020) by (nonlinear_arith)
                requires i + 1 <= 127;
        }
        blocks[i].put_into(is_last, &mut w);
        i = i + 1;
    }
    proof {
        assert(blocks_bits(blocks@.skip(m as int)) =~= Seq::<bool>::empty());
        assert(w@ =~= prefix + blocks_bits(blocks@));
        lemma_blocks_bits_aligned(blocks@);
        assert(crate::bitwriter::align_pad(w@.len()) == 0);
        assert(w@ + zero_bits(0) =~= w@);
    }
    w.finish()
}

proof fn lemma_blocks_bits_skip_step(bs: Seq<MetadataBlock>, i: int)
    requires 0 <= i < bs.len(),
    ensures blocks_bits(bs.skip(i)) == bs[i].spec_bits(i == bs.len() - 1)
        + blocks_bits(bs.skip(i + 1)),
{
    assert(bs.skip(i)[0] == bs[i]);
    assert(bs.skip(i).drop_first() =~= bs.skip(i + 1));
    assert(blocks_bits(bs.skip(i)) == bs.skip(i)[0].spec_bits(bs.skip(i).len() == 1)
        + blocks_bits(bs.skip(i).drop_first()));
}

/// Serializes one frame alone into finished bytes.
pub fn frame_to_bytes(frame: &Frame<i16>) -> (r: Vec<u8>)
    requires frame.wf(),
    ensures bytes_bits(r@) == frame.spec_bits(),
{
    let mut w = BitWriter::with_capacity(5000);
    frame.put_into(&mut w);
    proof {
        frame.spec_header().lemma_spec_bits_len(frame.spec_subframes().spec_channel_code());
        frame.spec_subframes().lemma_spec_bits_len();
        assert(crate::bitwriter::align_pad(w@.len()) == 0);
        assert(w@ + zero_bits(0) =~= w@);
        assert(Seq::<bool>::empty() + frame.spec_bits() =~= frame.spec_bits());
    }
    w.finish()
}

/// The byte offset of the MD5 placeholder within the stream: the magic
/// marker, the metadata-block header and the eighteen bytes of numeric
/// stream parameters precede it.
pub fn streaminfo_md5_offset() -> (r: usize)
    ensures r == 26,
{
    26
}

/// The MD5 placeholder occupies bytes 26 to 41 of the stream header:
/// patching exactly those bytes at finalisation rewrites the digest field
/// and nothing else.
pub proof fn lemma_md5_field_position(
    stream_info: MetadataBlockStreamInfo,
    blocks: Seq<MetadataBlock>,
)
    ensures
        stream_header_bits(stream_info, blocks).subrange(8 * 26int, 8 * 42int)
            == bytes_bits(stream_info.md5_signature@),
{
    crate::bits::lemma_bytes_bits_len(stream_info.md5_signature@);
    assert(stream_header_bits(stream_info, blocks).subrange(8 * 26int, 8 * 42int)
        =~= bytes_bits(stream_info.md5_signature@));
}

} // verus!

use flac_rs::bitwriter::BitWriter;
use flac_rs::encoder::Block;
use flac_rs::frame::Subblock;
use flac_rs::headers::{
    BitsPerSample, BlockSize, ChannelCount, FrameSize, MetadataBlock, MetadataBlockPadding,
    MetadataBlockStreamInfo, SampleRate, SamplesInStream,
};
use flac_rs::encoder::choose_stereo_layout;
use flac_rs::frame::{ChannelLayout, Subframe};
use flac_rs::stream::{frame_to_bytes, stream_header_bytes, streaminfo_md5_offset, Md5Context};

fn stream_info(channels: ChannelCount, total: u64) -> MetadataBlockStreamInfo {
    MetadataBlockStreamInfo {
        min_block_size: BlockSize::new(192).unwrap(),
        max_block_size: BlockSize::new(192).unwrap(),
        min_frame_size: FrameSize::new(0).unwrap(),
        max_frame_size: FrameSize::new(0).unwrap(),
        sample_rate: SampleRate::new(44100).unwrap(),
        channels,
        bits_per_sample: BitsPerSample::new(16).unwrap(),
        samples_in_stream: SamplesInStream::new(total).unwrap(),
        md5_signature: [0u8; 16],
    }
}

#[test]
fn zero_block_stream_matches_reference() {
    // One 16-bit mono channel at 44100 Hz, one block of 192 zero samples.
    let info = stream_info(ChannelCount::One, 192);
    let mut bytes = stream_header_bytes(&info, &Vec::new());

    let block = Block::from_input(vec![Subblock { data: vec![0i16; 192] }]);
    let frame = block.encode(&info, 0, false).unwrap();
    let frame_bytes = frame_to_bytes(&frame);

    // The single channel of zeros must come out as a constant subframe:
    // one pad bit, the all-zero type code, the zero wasted-bits flag, and
    // one zero sample, three zero bytes in all.
    assert_eq!(&frame_bytes[6..9], &[0, 0, 0]);

    bytes.extend_from_slice(&frame_bytes);
    let expected: &[u8] = &[
        0x66, 0x4c, 0x61, 0x43, 0x80, 0x00, 0x00, 0x22, 0x00, 0xc0, 0x00, 0xc0, 0x00, 0x00,
        0x00, 0x00, 0x00, 0x00, 0x0a, 0xc4, 0x40, 0xf0, 0x00, 0x00, 0x00, 0xc0, 0x00, 0x00,
        0x00, 0x00, 0x00, 0x00, 0x00, 0x00, 0x00, 0x00, 0x00, 0x00, 0x00, 0x00, 0x00, 0x00,
        0xff, 0xf8, 0x19, 0x08, 0x00, 0xba, 0x00, 0x00, 0x00, 0x30, 0xb2,
    ];
    assert_eq!(&bytes[..], expected);
}

#[test]
fn mid_side_chosen_when_cheaper() {
    // Two identical, lively channels: the side channel is all zero, so the
    // mid/side assignment must beat two independent channels.
    let samples: Vec<i16> = (0..192).map(|i| (((i * 7919) % 4096) - 2048) as i16).collect();
    let left = Subblock { data: samples.clone() };
    let right = Subblock { data: samples.clone() };
    let block = Block::from_input(vec![left, right]);

    // The reconstruction identity is the oracle for the derived channels.
    if let Block::Stereo { left, right, mid, side } = &block {
        assert_eq!(mid.data.len(), 192);
        assert_eq!(side.data.len(), 192);
        for i in 0..192 {
            let r2 = mid.data[i] as i32 - (side.data[i] >> 1);
            let l2 = r2 + side.data[i];
            assert_eq!(l2, left.data[i] as i32);
            assert_eq!(r2, right.data[i] as i32);
        }
    } else {
        panic!("not stereo");
    }

    let info = stream_info(ChannelCount::Two, 192);
    let frame = block.encode(&info, 0, true).unwrap();
    let bytes = frame_to_bytes(&frame);
    // The four-bit channel-assignment code sits in the high half of the
    // fourth header byte; mid/side is code 10.
    assert_eq!(bytes[3] >> 4, 10);

    // With the side-channel gate closed the same block must be encoded
    // with the independent (two-channel) assignment, code 1.
    let frame = block.encode(&info, 0, false).unwrap();
    let bytes = frame_to_bytes(&frame);
    assert_eq!(bytes[3] >> 4, 1);
}

#[test]
fn encode_rejects_wrong_depth_and_tiny_blocks() {
    let mut info = stream_info(ChannelCount::One, 192);
    info.bits_per_sample = BitsPerSample::new(24).unwrap();
    let block = Block::from_input(vec![Subblock { data: vec![0i16; 192] }]);
    assert!(block.encode(&info, 0, false).is_none());

    let info = stream_info(ChannelCount::One, 8);
    let block = Block::from_input(vec![Subblock { data: vec![0i16; 8] }]);
    assert!(block.encode(&info, 0, false).is_none());
}

#[test]
fn field_constructors_validate() {
    assert!(BlockSize::new(15).is_none());
    assert_eq!(BlockSize::new(16).unwrap().inner(), 16);

    assert!(SampleRate::new(0).is_none());
    assert_eq!(SampleRate::new(655350).unwrap().inner(), 655350);
    assert!(SampleRate::new(655351).is_none());

    assert!(BitsPerSample::new(3).is_none());
    assert_eq!(BitsPerSample::new(4).unwrap().inner(), 4);
    assert_eq!(BitsPerSample::new(32).unwrap().inner(), 32);
    assert!(BitsPerSample::new(33).is_none());

    assert!(ChannelCount::new(0).is_none());
    assert!(ChannelCount::new(9).is_none());
    assert_eq!(ChannelCount::new(8).unwrap().count(), 8);

    assert!(FrameSize::new(0xff_ffff).is_some());
    assert!(FrameSize::new(0x100_0000).is_none());

    assert_eq!(SamplesInStream::new(0).unwrap().inner(), 0);
    assert_eq!(SamplesInStream::new((1 << 36) - 1).unwrap().inner(), (1 << 36) - 1);
    assert!(SamplesInStream::new(1 << 36).is_none());
}

#[test]
fn padding_block_layout() {
    let padding = MetadataBlockPadding::new(3);
    assert_eq!(padding.len(), 3);
    let mut w = BitWriter::new();
    padding.put_into(true, &mut w);
    let bytes = w.finish();
    assert_eq!(bytes, vec![0x81, 0x00, 0x00, 0x03, 0, 0, 0]);

    let info = stream_info(ChannelCount::One, 0);
    let blocks = vec![MetadataBlock::Padding(MetadataBlockPadding::new(2))];
    let bytes = stream_header_bytes(&info, &blocks);
    // Stream-info no longer carries the last-block flag; the padding block
    // does.
    assert_eq!(bytes[4], 0x00);
    assert_eq!(&bytes[42..], &[0x81, 0x00, 0x00, 0x02, 0, 0]);
}

#[test]
fn md5_digest_known_values() {
    let ctx = Md5Context::new();
    let digest = ctx.finalize();
    assert_eq!(
        digest,
        [
            0xd4, 0x1d, 0x8c, 0xd9, 0x8f, 0x00, 0xb2, 0x04, 0xe9, 0x80, 0x09, 0x98, 0xec,
            0xf8, 0x42, 0x7e,
        ]
    );

    let mut ctx = Md5Context::new();
    ctx.update(b"ab");
    ctx.update(b"c");
    let digest = ctx.finalize();
    assert_eq!(
        digest,
        [
            0x90, 0x01, 0x50, 0x98, 0x3c, 0xd2, 0x4f, 0xb0, 0xd6, 0x96, 0x3f, 0x7d, 0x28,
            0xe1, 0x7f, 0x72,
        ]
    );
}

#[test]
fn md5_offset_points_at_placeholder() {
    let off = streaminfo_md5_offset();
    assert_eq!(off, 26);
    let mut info = stream_info(ChannelCount::One, 192);
    info.md5_signature = [0xab; 16];
    let bytes = stream_header_bytes(&info, &Vec::new());
    assert_eq!(&bytes[off..off + 16], &[0xab; 16]);
    assert_eq!(bytes.len(), 42);
}

#[test]
fn stereo_layout_cost_and_tie_order() {
    // Constant subframes cost 3 bytes at 16 bits and 5 bytes widened;
    // a verbatim subframe of 8 samples costs 17 bytes.
    let cheap = || Subframe::Constant { value: 7i16 };
    let cheap_side = || Subframe::Constant { value: 7i32 };
    let dear = || Subframe::Verbatim { value: vec![1i16, -2, 3, -4, 5, -6, 7, -8] };

    // Everything cheap: all assignments tie at nothing to gain, so the
    // independent one is kept.
    match choose_stereo_layout(cheap(), cheap(), cheap(), cheap_side(), true) {
        ChannelLayout::Independent { channels } => assert_eq!(channels.len(), 2),
        _ => panic!("expected the independent assignment"),
    }

    // Both plain channels dear, mid and side cheap: mid/side wins.
    match choose_stereo_layout(dear(), dear(), cheap(), cheap_side(), true) {
        ChannelLayout::MidSide { .. } => {}
        _ => panic!("expected the mid/side assignment"),
    }

    // Only the right channel dear: left/side wins.
    match choose_stereo_layout(cheap(), dear(), dear(), cheap_side(), true) {
        ChannelLayout::LeftSide { .. } => {}
        _ => panic!("expected the left/side assignment"),
    }

    // Only the left channel dear: side/right wins.
    match choose_stereo_layout(dear(), cheap(), dear(), cheap_side(), true) {
        ChannelLayout::SideRight { .. } => {}
        _ => panic!("expected the side/right assignment"),
    }

    // Mid/side and left/side tie below independent: mid/side is preferred.
    match choose_stereo_layout(cheap(), dear(), cheap(), cheap_side(), true) {
        ChannelLayout::MidSide { .. } => {}
        _ => panic!("expected the mid/side assignment on a tie"),
    }

    // Disabling side channels keeps the independent assignment.
    match choose_stereo_layout(dear(), dear(), cheap(), cheap_side(), false) {
        ChannelLayout::Independent { channels } => assert_eq!(channels.len(), 2),
        _ => panic!("expected the independent assignment"),
    }
}

#[test]
fn well_formedness_is_decidable_at_run_time() {
    let info = stream_info(ChannelCount::One, 192);
    let block = Block::from_input(vec![Subblock { data: vec![3i16; 192] }]);
    let frame = block.encode(&info, 0, false).unwrap();
    assert!(frame.is_well_formed());

    // A frame whose subframes were never set has no channels yet.
    let mut bare = flac_rs::frame::Frame::<i16>::new(
        BlockSize::new(192).unwrap(), &info, 0).unwrap();
    assert!(!bare.is_well_formed());
    bare.set_subframes(ChannelLayout::Independent {
        channels: vec![Subframe::Constant { value: 0i16 }],
    });
    assert!(bare.is_well_formed());

    // A hand-assembled fixed subframe with an oversized parameter is
    // rejected.
    bare.set_subframes(ChannelLayout::Independent {
        channels: vec![Subframe::Fixed {
            predictor: vec![0i16],
            rice_param: 15,
            residual: vec![0i64; 4],
        }],
    });
    assert!(!bare.is_well_formed());
}

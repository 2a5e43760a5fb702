use flac_rs::bitwriter::BitWriter;
use flac_rs::frame::{crc16, crc8, ftf8_encode, SampleVal, StackVec, Subframe};

#[test]
fn test_ftf_encode_in_bounds() {
    assert_eq!(&ftf8_encode(0).unwrap(), &[0]);
    assert_eq!(&ftf8_encode(1).unwrap(), &[1]);
    assert_eq!(&ftf8_encode(127).unwrap(), &[127]);
    assert_eq!(&ftf8_encode(128).unwrap(), &[0xc2, 0x80]);
    assert_eq!(&ftf8_encode(0x7ff).unwrap(), &[0xdf, 0xbf]);
    assert_eq!(&ftf8_encode(0x800).unwrap(), &[0xe0, 0xa0, 0x80]);
    assert_eq!(
        &ftf8_encode((1 << 36) - 1).unwrap(),
        &[0xfe, 0xbf, 0xbf, 0xbf, 0xbf, 0xbf, 0xbf],
    );
}

#[test]
fn ftf8_encode_rejects_out_of_range() {
    assert_eq!(ftf8_encode(1 << 36), None);
    assert_eq!(ftf8_encode(u64::MAX), None);
}

#[test]
fn ftf8_encode_byte_lengths() {
    // The scenario lengths: 0, 127, 128, 0x7FF, 0x800 and 2^36 - 1 take
    // 1, 1, 2, 2, 3 and 7 bytes respectively.
    let cases: &[(u64, usize)] = &[
        (0, 1),
        (127, 1),
        (128, 2),
        (0x7ff, 2),
        (0x800, 3),
        ((1 << 36) - 1, 7),
    ];
    for &(v, len) in cases {
        assert_eq!(ftf8_encode(v).unwrap().len(), len);
    }
}

#[test]
fn crc_of_empty_range_is_zero() {
    assert_eq!(crc8(&[]), 0);
    assert_eq!(crc16(&[]), 0);
}

#[test]
fn crc_check_values() {
    // The catalogued check values of the two algorithms over the digits.
    assert_eq!(crc8(b"123456789"), 0xf4);
    assert_eq!(crc16(b"123456789"), 0xfee8);
}

#[test]
fn constant_chosen_for_equal_samples() {
    let data = vec![42i16; 192];
    let sf = Subframe::from_subblock_i16(&data);
    match sf {
        Subframe::Constant { value } => assert_eq!(value, 42),
        _ => panic!("expected a constant subframe"),
    }
}

#[test]
fn fixed_beats_verbatim_on_a_ramp() {
    // A pure ramp has an all-zero order-2 residual: some fixed order must
    // win over verbatim.
    let data: Vec<i16> = (0..192).map(|i| (3 * i) as i16).collect();
    let sf = Subframe::from_subblock_i16(&data);
    match sf {
        Subframe::Fixed { predictor, rice_param, residual } => {
            assert!(1 <= predictor.len() && predictor.len() <= 4);
            assert!(rice_param <= 14);
            assert_eq!(residual.len(), 192 - predictor.len());
        }
        _ => panic!("expected a fixed subframe"),
    }
}

#[test]
fn verbatim_chosen_for_noise() {
    // Values alternating across the full range defeat low-order
    // prediction; order 1 differencing already doubles every magnitude.
    let data: Vec<i16> = (0..64)
        .map(|i| if i % 2 == 0 { i16::MIN } else { i16::MAX })
        .collect();
    let sf = Subframe::from_subblock_i16(&data);
    match sf {
        Subframe::Verbatim { value } => assert_eq!(value, data),
        _ => panic!("expected a verbatim subframe"),
    }
}

#[test]
fn new_fixed_from_widened_narrows_warmup() {
    let wide: Vec<i32> = vec![1, -2, 3, -4, 5, -6, 7, -8];
    let sf: Option<Subframe<i16>> = Subframe::new_fixed_from_widened(&wide, 2);
    match sf.unwrap() {
        Subframe::Fixed { predictor, residual, .. } => {
            assert_eq!(predictor, vec![1i16, -2]);
            assert_eq!(residual.len(), 6);
        }
        _ => panic!("expected a fixed subframe"),
    }

    // A warm-up value outside the narrow range makes narrowing fail.
    let wide: Vec<i32> = vec![40000, -2, 3, -4, 5, -6, 7, -8];
    let sf: Option<Subframe<i16>> = Subframe::new_fixed_from_widened(&wide, 2);
    assert!(sf.is_none());
}

#[test]
fn stack_vec_keeps_at_most_sixteen_bytes() {
    let short = StackVec::from_slice(&[1, 2, 3]);
    assert_eq!(short.len(), 3);
    assert_eq!(short.get(0), 1);
    assert_eq!(short.get(2), 3);
    let long: Vec<u8> = (0..32).collect();
    let clipped = StackVec::from_slice(&long);
    assert_eq!(clipped.len(), 16);
    assert_eq!(clipped.get(15), 15);
}

#[test]
fn sample_to_bytes_is_big_endian() {
    let b = 0x1234i16.to_bytes();
    assert_eq!((b.get(0), b.get(1)), (0x12, 0x34));
    let mut out = Vec::new();
    (-2i16).write(&mut out);
    0x0102_0304i32.write(&mut out);
    assert_eq!(out, vec![0xff, 0xfe, 0x01, 0x02, 0x03, 0x04]);
    assert_eq!(<i16 as SampleVal>::bitsize(), 16);
    assert_eq!(<i64 as SampleVal>::bitsize(), 64);
}

#[test]
fn subframe_len_counts_serialized_bytes() {
    let data = vec![7i16; 32];
    let sf = Subframe::from_subblock_i16(&data);
    // A constant subframe: one header byte and one 16-bit sample.
    assert_eq!(sf.len(), 3);
}

#[test]
fn len_agrees_with_serialize_and_count() {
    // The analytic length must equal the byte count of actually
    // serializing the candidate into a disposable buffer.
    let ramp: Vec<i16> = (0..192).map(|i| (5 * i - 300) as i16).collect();
    let noise: Vec<i16> = (0..64)
        .map(|i| if i % 2 == 0 { i16::MIN } else { i16::MAX })
        .collect();
    let flat = vec![-7i16; 192];
    for data in [ramp, noise, flat] {
        let sf = Subframe::from_subblock_i16(&data);
        let mut w = BitWriter::new();
        sf.put_into(&mut w);
        let bytes = w.finish();
        assert_eq!(bytes.len(), sf.len());
    }
}

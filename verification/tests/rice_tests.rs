use flac_rs::bitwriter::BitWriter;
use flac_rs::rice::{find_optimum_rice_param, get_rice_encoding_length, rice, RiceEncoder};

#[test]
fn expected_sample() {
    let input: &[i64] = &[
        -5, 3, 1, -3, 6, -7, -4, 3, -2, 5, -10, 2, 2, -1, 10, 6, -2, 2, -4, 0, 3, -3, -3, -6,
        -4, 0, -1, 6, 3, 5, 8, 1, 3, 0, -3, -12, 0, -5, -1, -11, 2, -6, -2, 6, -1, 5, 7, 4, 13,
        3, 5, -6, -4, -6, -3, 3, 5, -5, -1, -1, 1, 3, 6, 2, -5, -2, -9, -1, 0, -6, 6, 0, -1, 2,
        -3, -7, -3, -4, 7, 0, 5, 4, 0, 0, 0, -3, 5, -5, 5, 4, 2, -3, -4, -2, 4, -1, 7, 3, -2,
        3, 4, -1, -3, -3, 0, -8, 1, 0, -9, 5, -3, 2, 2, 4, 3, 5, 0, -2, -3, -1, -5, 2, -3, -3,
        2, 0, -8, 10, -4, 4, -7, -4, -2, -1, 3, 7, 6, 1, 3, 3, -1, -7, 5, 0, -2, 1, 8, 1, 5,
        -2, 5, -2, -6, -1, -9, -1, -1, 1, 3, -4, -5, 3, -6, 5, 0, 2, 1, 0, 0, 1, -2, 2, 1, -6,
        -6, -10, 3, -3, 2, 5, -6, 7, 11, 10, 13, 4, 0, -8, -10,
    ];

    let expected_encoding: &[u8] = &[
        0x2b, 0x65, 0x10, 0x57, 0x6e, 0x60, 0xe8, 0x94, 0x10, 0x4e, 0x8f, 0x19, 0x54, 0xef,
        0x28, 0x8c, 0x60, 0x99, 0xa2, 0x83, 0xc2, 0xd0, 0x54, 0x3f, 0x12, 0x98, 0x62, 0x01,
        0x98, 0xc7, 0x73, 0xab, 0x18, 0xb6, 0xe6, 0x11, 0x0b, 0xc2, 0xd8, 0x71, 0x25, 0x45,
        0x15, 0x5c, 0x68, 0x62, 0x49, 0x14, 0xc5, 0x31, 0x11, 0x5f, 0x92, 0x8c, 0xdd, 0x89,
        0x55, 0x60, 0xfa, 0x05, 0x32, 0xa2, 0x11, 0x8d, 0x3a, 0xd2, 0xa2, 0xaa, 0x41, 0xc1,
        0x1c, 0x82, 0xbf, 0xac, 0x30, 0x99, 0x9a, 0x8a, 0x69, 0xf0, 0x4c, 0x6e, 0x6e, 0x7a,
        0x16, 0xdc, 0xce, 0x56, 0x39, 0xa2, 0x69, 0x37, 0x4c, 0x73, 0x87, 0x65, 0x43, 0x1c,
        0x60, 0x60, 0x40, 0x31, 0x20, 0xe1, 0xc0,
    ];
    let mut bw = BitWriter::new();
    let encoder = RiceEncoder::new(2);
    for value in input {
        encoder.rice(*value, &mut bw);
    }
    let bytes = bw.finish();
    assert_eq!(&bytes[..], expected_encoding);
}

#[test]
fn single_code_layout() {
    // -5 maps to 9 under the zigzag map; with parameter 2 that is quotient
    // 2 and remainder 1: bits 001 01, padded to 0b00101000.
    let mut bw = BitWriter::new();
    rice(2, -5, &mut bw);
    let bytes = bw.finish();
    assert_eq!(bytes, vec![0b0010_1000]);
}

#[test]
fn rice_round_trip_decodes() {
    // Encode, then read the code back bit by bit: unary quotient, then the
    // binary remainder, then undo the zigzag map.
    for &k in &[0usize, 1, 2, 5, 13, 30] {
        // Keep the unary quotients small for the small parameters; the
        // large values exercise the large parameters.
        let values: &[i64] = if k >= 13 {
            &[0, 1, -1, 2, -2, 100, -100, 32767, -32768, 1 << 30, -(1 << 30)]
        } else if k >= 5 {
            &[0, 1, -1, 2, -2, 100, -100, 32767, -32768]
        } else {
            &[0, 1, -1, 2, -2, 100, -100, 2000, -2000]
        };
        for &v in values {
            let mut bw = BitWriter::new();
            rice(k, v, &mut bw);
            let bytes = bw.finish();
            let bit = |i: usize| (bytes[i / 8] >> (7 - i % 8)) & 1;
            let mut q: u64 = 0;
            let mut pos = 0;
            while bit(pos) == 0 {
                q += 1;
                pos += 1;
            }
            pos += 1;
            let mut low: u64 = 0;
            for _ in 0..k {
                low = (low << 1) | bit(pos) as u64;
                pos += 1;
            }
            let u = (q << k) | low;
            let decoded: i64 = if u % 2 == 0 {
                (u / 2) as i64
            } else {
                -(((u / 2) + 1) as i64)
            };
            assert_eq!(decoded, v);
        }
    }
}

#[test]
fn encoding_length_exact() {
    // zigzag values 10, 7: with k = 1 the quotients are 5 and 3, so the
    // codes take (5 + 1 + 1) + (3 + 1 + 1) = 12 bits.
    let residuals: &[i64] = &[5, -4];
    assert_eq!(get_rice_encoding_length(residuals, 1), 12);
    // With k = 0 the codes take 11 and 8 bits.
    assert_eq!(get_rice_encoding_length(residuals, 0), 19);
}

#[test]
fn optimum_param_all_zero() {
    let residuals: &[i64] = &[0, 0, 0, 0];
    assert_eq!(find_optimum_rice_param(residuals), 0);
    assert_eq!(get_rice_encoding_length(residuals, 0), 4);
}

#[test]
fn optimum_param_never_beats_itself() {
    let cases: &[&[i64]] = &[
        &[1],
        &[-5, 3, 1, -3, 6, -7],
        &[1000, -1000, 999, -998],
        &[0, 1, 0, -1, 0],
        &[123456, -654321],
    ];
    for residuals in cases {
        let p = find_optimum_rice_param(residuals);
        assert!(p <= 14);
        let best = get_rice_encoding_length(residuals, p);
        assert!(best <= get_rice_encoding_length(residuals, 0));
        for k in 0..=14 {
            assert!(best <= get_rice_encoding_length(residuals, k));
        }
    }
}

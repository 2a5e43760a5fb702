use flac_rs::bitwriter::BitWriter;

#[test]
fn write_bytes() {
    let mut writer = BitWriter::new();

    writer.put(32, 0xffffffff);
    writer.put(32, 0x1);
    let bytes = writer.finish();

    assert_eq!(&bytes[..], &[0xff, 0xff, 0xff, 0xff, 0, 0, 0, 1][..]);
}

#[test]
fn write_across_scratch_boundary() {
    let mut writer = BitWriter::new();

    writer.put(16, 0xffff);
    writer.put(32, 0);
    writer.put(32, 0xffffffff);
    writer.put(16, 0);
    let bytes = writer.finish();

    assert_eq!(
        &bytes[..],
        &[0xff, 0xff, 0, 0, 0, 0, 0xff, 0xff, 0xff, 0xff, 0, 0][..]
    );
}

#[test]
fn write_partial_bytes() {
    let mut writer = BitWriter::new();

    writer.put(63, 0x7fff_ffff_ffff_ffff);
    writer.put(3, 7);
    writer.put(3, 0);
    writer.put(1, 1);
    let bytes = writer.finish();

    assert_eq!(
        &bytes[..],
        &[0xff, 0xff, 0xff, 0xff, 0xff, 0xff, 0xff, 0xff, 0b1100_0100][..]
    );
}

/// Reads bit `i` (most significant first) out of a byte buffer.
fn bit_at(bytes: &[u8], i: usize) -> u64 {
    ((bytes[i / 8] >> (7 - i % 8)) & 1) as u64
}

/// Reads `ct` bits starting at `off`, most significant bit first.
fn read_bits(bytes: &[u8], off: usize, ct: usize) -> u64 {
    let mut v = 0u64;
    for i in 0..ct {
        v = (v << 1) | bit_at(bytes, off + i);
    }
    v
}

#[test]
fn fields_round_trip_through_bytes() {
    // Widths that sum to more than one scratch register, crossing its
    // boundary mid-field.
    let fields: &[(usize, u64)] = &[
        (5, 0b10101),
        (7, 0x55),
        (64, 0xdead_beef_0bad_f00d),
        (1, 1),
        (13, 0x1abc),
        (36, 0xf_0f0f_0f0f),
    ];
    let mut writer = BitWriter::new();
    for (ct, value) in fields {
        writer.put(*ct, *value);
    }
    let bytes = writer.finish();

    let mut off = 0;
    for (ct, value) in fields {
        assert_eq!(read_bits(&bytes, off, *ct), *value);
        off += ct;
    }
}

#[test]
fn align_pads_with_zero_bits() {
    for n in 1..=16usize {
        let mut writer = BitWriter::new();
        // Write n one bits, then align: the rest of the last byte must be
        // exactly (8 - n % 8) % 8 zero bits.
        for _ in 0..n {
            writer.put(1, 1);
        }
        writer.align_and_flush();
        let bytes = writer.finish();
        assert_eq!(bytes.len(), (n + 7) / 8);
        for i in 0..n {
            assert_eq!(bit_at(&bytes, i), 1);
        }
        for i in n..bytes.len() * 8 {
            assert_eq!(bit_at(&bytes, i), 0);
        }
    }
}

#[test]
fn flush_exposes_complete_bytes() {
    let mut writer = BitWriter::new();
    writer.put(12, 0xabc);
    writer.flush();
    assert_eq!(writer.as_slice(), &[0xab]);
    writer.put(4, 0xd);
    writer.flush();
    assert_eq!(writer.as_slice(), &[0xab, 0xcd]);
}

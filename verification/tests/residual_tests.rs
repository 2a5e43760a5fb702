use flac_rs::encoder::{calculate_mid, calculate_side, FixedResidual};
use rand::{thread_rng, Rng};

#[test]
fn order_zero() {
    for (slice, residual) in [
        (&[0i16, 1, 2, 4, 7][..], &[0i64, 1, 2, 4, 7][..]),
        (&[1, 2, 3, 4, 5, 6, 7], &[1, 2, 3, 4, 5, 6, 7]),
    ] {
        let fr = FixedResidual::new(slice, 0);
        assert_eq!(&fr.into_vec(), residual);
    }
}

#[test]
fn order_one() {
    for (slice, residual) in &[
        (&[0i16, 1, 2, 4, 7][..], &[1i64, 1, 2, 3][..]),
        (&[1, 2, 3, 4, 5, 6, 7], &[1, 1, 1, 1, 1, 1]),
        (
            &[1, 2, 3, 3, 2, 1, 1, 2, 3, 3, 2, 1],
            &[1, 1, 0, -1, -1, 0, 1, 1, 0, -1, -1],
        ),
    ] {
        let fr = FixedResidual::new(slice, 1);
        let result = fr.into_vec();
        assert_eq!(slice.len() - 1, result.len());
        assert_eq!(&result, residual);
    }
}

#[test]
fn order_two() {
    for (slice, residual) in &[
        (&[0i64, 1, 2, 4, 7][..], &[0i64, 1, 1][..]),
        (&[1, 2, 3, 4, 5, 6, 7], &[0, 0, 0, 0, 0]),
        (
            &[1, 2, 3, 3, 2, 1, 1, 2, 3, 3, 2, 1],
            &[0, -1, -1, 0, 1, 1, 0, -1, -1, 0],
        ),
    ] {
        let fr = FixedResidual::new(slice, 2);
        let result = fr.into_vec();
        assert_eq!(slice.len() - 2, result.len());
        assert_eq!(&result, residual);
    }
}

#[test]
fn order_three() {
    for (slice, residual) in &[
        (&[0i16, 1, 2, 4, 7][..], &[1i64, 0][..]),
        (&[1, 2, 3, 4, 5, 6, 7], &[0, 0, 0, 0]),
        (
            &[1, 2, 3, 3, 2, 1, 1, 2, 3, 3, 2, 1],
            &[-1, 0, 1, 1, 0, -1, -1, 0, 1],
        ),
    ] {
        let fr = FixedResidual::new(slice, 3);
        let result = fr.into_vec();
        assert_eq!(slice.len() - 3, result.len());
        assert_eq!(&result, residual);
    }
}

#[test]
fn overflow_and_underflow() {
    let slice = &[i16::MIN, i16::MAX, i16::MIN, i16::MAX][..];
    let mut fr = FixedResidual::new(slice, 1);

    assert_eq!(fr.next(), Some(i16::MAX as i64 - i16::MIN as i64));
    assert_eq!(fr.next(), Some(-(i16::MAX as i64 - i16::MIN as i64)));

    let slice = &[i16::MIN, i16::MIN, i16::MAX][..];
    let mut fr = FixedResidual::new(slice, 2);
    assert_eq!(fr.next(), Some(i16::MAX as i64 - i16::MIN as i64));
}

#[test]
fn residual_expected_outliers() {
    // A residual of random inputs *should* generate outputs up to
    // inputmax * (order^2)
    let mut min2 = i64::MAX;
    let mut max2 = i64::MIN;

    let mut min3 = i64::MAX;
    let mut max3 = i64::MIN;

    for _ in 0..10000 {
        let arr: [i16; 12] = thread_rng().gen();
        let order_2_residual = FixedResidual::new(&arr[..], 2);
        for i in order_2_residual.into_vec() {
            if i < min2 {
                min2 = i;
            }
            if i > max2 {
                max2 = i;
            }
        }

        let order_3_residual = FixedResidual::new(&arr[..], 3);
        for i in order_3_residual.into_vec() {
            if i < min3 {
                min3 = i;
            }
            if i > max3 {
                max3 = i;
            }
        }
    }
    assert!(min2 < 3 * i16::MIN as i64);
    assert!(max2 > 3 * i16::MAX as i64);
    assert!(max3 > 7 * i16::MAX as i64);
    assert!(min3 < 7 * i16::MIN as i64);

    assert!(min2 >= 4 * i16::MIN as i64);
    assert!(min3 >= 8 * i16::MIN as i64);
    assert!(max2 <= 4 * (1 + i16::MAX as i64));
    assert!(max3 <= 8 * (1 + i16::MAX as i64));
}

#[test]
fn residual_length_and_amplified_range_at_extremes() {
    // The full dynamic range of the sample type: residual magnitudes stay
    // strictly within 2^k times the larger bound of the input range.
    let mut data = Vec::new();
    for i in 0..64 {
        data.push(if i % 2 == 0 { i16::MIN } else { i16::MAX });
    }
    for order in 1..=4usize {
        let out = FixedResidual::new(&data[..], order).into_vec();
        assert_eq!(out.len(), data.len() - order);
        let bound = (1i64 << order) * 32768;
        for v in out {
            assert!(-bound < v && v < bound);
        }
    }
}

#[test]
fn mid_side_reconstruction_pairs() {
    let pairs: &[(i16, i16)] = &[
        (0, 0),
        (1, -1),
        (123, -456),
        (i16::MIN, i16::MAX),
        (i16::MAX, i16::MIN),
        (i16::MIN, i16::MIN),
        (i16::MAX, i16::MAX),
        (-1, 0),
        (0, -1),
        (32767, 32766),
    ];
    for &(l, r) in pairs {
        let mid = calculate_mid(l, r);
        let side: i32 = calculate_side(l, r);
        let r2: i32 = mid as i32 - (side >> 1);
        let l2: i32 = r2 + side;
        assert_eq!(l2, l as i32);
        assert_eq!(r2, r as i32);
    }
}

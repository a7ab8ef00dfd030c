use archer::keys::{distance_key, order_key, INFINITE, LARGEST_FINITE, MAGNITUDE, SIGN};

#[test]
fn finite_distances_that_are_not_negative_have_their_pattern_as_key() {
    assert_eq!(distance_key(0.0f64.to_bits()), Some(0));
    assert_eq!(distance_key(1.0f64.to_bits()), Some(0x3ff0_0000_0000_0000));
    assert_eq!(distance_key(f64::MAX.to_bits()), Some(LARGEST_FINITE));
    assert_eq!(distance_key(f64::MIN_POSITIVE.to_bits()), Some(0x0010_0000_0000_0000));
}

#[test]
fn degenerate_distances_have_no_key() {
    assert_eq!(distance_key(f64::NAN.to_bits()), None);
    assert_eq!(distance_key(f64::INFINITY.to_bits()), None);
    assert_eq!(distance_key(f64::NEG_INFINITY.to_bits()), None);
    assert_eq!(distance_key((-1.0f64).to_bits()), None);
    assert_eq!(distance_key((-0.0f64).to_bits()), None);
    assert_eq!(distance_key(u64::MAX), None);
    assert_eq!(distance_key(LARGEST_FINITE + 1), None);
}

#[test]
fn distance_keys_grow_with_the_distance() {
    let distances = [0.0f64, 1e-300, f64::EPSILON, 0.5, 1.0, 1.5, 2.0, 1e10, 1e300, f64::MAX];
    for pair in distances.windows(2) {
        assert!(pair[0] < pair[1]);
        assert!(distance_key(pair[0].to_bits()).unwrap() < distance_key(pair[1].to_bits()).unwrap());
    }
}

#[test]
fn the_constants_are_those_of_the_bit_pattern() {
    assert_eq!(SIGN, (-0.0f64).to_bits());
    assert_eq!(MAGNITUDE, !SIGN);
    assert_eq!(INFINITE, f64::INFINITY.to_bits());
    assert_eq!(LARGEST_FINITE, f64::MAX.to_bits());
}

#[test]
fn both_zeros_share_the_key_of_zero() {
    assert_eq!(order_key(0.0f64.to_bits()), Some(SIGN));
    assert_eq!(order_key((-0.0f64).to_bits()), Some(SIGN));
}

#[test]
fn order_keys_of_given_numbers() {
    assert_eq!(order_key(1.0f64.to_bits()), Some(0xbff0_0000_0000_0000));
    assert_eq!(order_key((-1.0f64).to_bits()), Some(0x4010_0000_0000_0000));
    assert_eq!(order_key(f64::INFINITY.to_bits()), Some(0xfff0_0000_0000_0000));
    assert_eq!(order_key(f64::NEG_INFINITY.to_bits()), Some(0x0010_0000_0000_0000));
    assert_eq!(order_key(f64::MAX.to_bits()), Some(0xffef_ffff_ffff_ffff));
    assert_eq!(order_key(1u64), Some(SIGN + 1));
    assert_eq!(order_key(SIGN | 1), Some(SIGN - 1));
}

#[test]
fn a_nan_has_no_order_key() {
    assert_eq!(order_key(f64::NAN.to_bits()), None);
    assert_eq!(order_key((-f64::NAN).to_bits()), None);
    assert_eq!(order_key(INFINITE + 1), None);
    assert_eq!(order_key(u64::MAX), None);
    assert_eq!(order_key(MAGNITUDE), None);
}

#[test]
fn order_keys_are_ordered_as_the_numbers_are() {
    let numbers = [
        f64::NEG_INFINITY,
        f64::MIN,
        -1e300,
        -2.0,
        -1.0,
        -0.5,
        -f64::MIN_POSITIVE,
        -5e-324,
        0.0,
        5e-324,
        f64::MIN_POSITIVE,
        0.1,
        0.2,
        0.3,
        1.0,
        2.0,
        1e300,
        f64::MAX,
        f64::INFINITY,
    ];
    for a in numbers {
        for b in numbers {
            let ka = order_key(a.to_bits()).unwrap();
            let kb = order_key(b.to_bits()).unwrap();
            assert_eq!(a < b, ka < kb);
            assert_eq!(a == b, ka == kb);
        }
    }
    assert_eq!(order_key((-0.0f64).to_bits()), order_key(0.0f64.to_bits()));
}

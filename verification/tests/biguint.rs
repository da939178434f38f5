use stellarnova::BigUint;

fn big(x: u128) -> BigUint {
    BigUint::from_u128(x)
}

#[test]
fn zero_is_zero() {
    assert!(BigUint::zero().is_zero());
    assert!(BigUint::from_u64(0).is_zero());
    assert!(!BigUint::from_u64(1).is_zero());
    assert_eq!(BigUint::zero(), BigUint::from_u64(0));
    assert_eq!(BigUint::zero().to_u64(), Some(0));
}

#[test]
fn from_u64_round_trips() {
    for x in [0u64, 1, 255, 256, 0xffff_ffff, 0x1_0000_0000, 0x1234_5678_9abc_def0, u64::MAX] {
        assert_eq!(BigUint::from_u64(x).to_u64(), Some(x));
        assert_eq!(BigUint::from_u64(x), big(x as u128));
    }
}

#[test]
fn to_u64_refuses_what_does_not_fit() {
    assert_eq!(big(u64::MAX as u128).to_u64(), Some(u64::MAX));
    assert_eq!(big(u64::MAX as u128 + 1).to_u64(), None);
    assert_eq!(big(u128::MAX).to_u64(), None);
}

#[test]
fn addition_carries_across_limbs() {
    assert_eq!(big(0xffff_ffff).add(&big(1)), big(0x1_0000_0000));
    assert_eq!(big(u64::MAX as u128).add(&big(1)), big(1u128 << 64));
    assert_eq!(big(123).add(&big(0)), big(123));
    assert_eq!(big(0).add(&big(123)), big(123));
    let a = 0x0123_4567_89ab_cdef_0011_2233_4455_6677u128;
    let b = 0x0fed_cba9_8765_4321_8899_aabb_ccdd_eeffu128;
    assert_eq!(big(a).add(&big(b)), big(a + b));
}

#[test]
fn addition_grows_past_128_bits() {
    let sum = big(u128::MAX).add(&big(1));
    assert_eq!(sum.to_bytes_be(), {
        let mut bytes = vec![0u8; 17];
        bytes[0] = 1;
        bytes
    });
    assert_eq!(sum.sub(&big(1)), big(u128::MAX));
}

#[test]
fn subtraction_borrows_across_limbs() {
    assert_eq!(big(0x1_0000_0000).sub(&big(1)), big(0xffff_ffff));
    assert_eq!(big(1u128 << 64).sub(&big(1)), big(u64::MAX as u128));
    assert_eq!(big(77).sub(&big(77)), big(0));
    assert!(big(77).sub(&big(77)).is_zero());
    let a = 0x0fed_cba9_8765_4321_8899_aabb_ccdd_eeffu128;
    let b = 0x0123_4567_89ab_cdef_0011_2233_4455_6677u128;
    assert_eq!(big(a).sub(&big(b)), big(a - b));
}

#[test]
fn multiplication_matches_u128() {
    let cases = [
        (0u128, 12345u128),
        (1, 1),
        (0xffff_ffff, 0xffff_ffff),
        (u64::MAX as u128, u64::MAX as u128),
        (0x1_0000_0000, 0x1_0000_0000),
        (1_000_000_000_000_000_000, 50),
        (987_654_321_987_654_321, 123_456_789_123_456_789),
    ];
    for (a, b) in cases {
        assert_eq!(big(a).mul(&big(b)), big(a * b));
        assert_eq!(big(b).mul(&big(a)), big(a * b));
    }
}

#[test]
fn mul_add_u32_matches_u128() {
    assert_eq!(big(0).mul_add_u32(7, 3), big(3));
    assert_eq!(big(10).mul_add_u32(0, 0), big(0));
    assert_eq!(big(u64::MAX as u128).mul_add_u32(u32::MAX, u32::MAX),
        big(u64::MAX as u128 * u32::MAX as u128 + u32::MAX as u128));
}

#[test]
fn division_matches_u128() {
    let cases = [
        (0u128, 1u128),
        (1, 1),
        (7, 2),
        (47_500_000, 10_000),
        (u128::MAX, 1),
        (u128::MAX, 3),
        (u128::MAX, u64::MAX as u128),
        (u128::MAX, u128::MAX),
        (u128::MAX - 1, u128::MAX),
        (0x1_0000_0000_0000_0000, 0x1_0000_0000),
        (123_456_789_123_456_789_123_456_789, 987_654_321_987),
    ];
    for (a, d) in cases {
        let (q, r) = big(a).div_rem(&big(d));
        assert_eq!(q, big(a / d));
        assert_eq!(r, big(a % d));
        assert_eq!(big(a).div(&big(d)), big(a / d));
    }
}

#[test]
fn division_undoes_multiplication_beyond_128_bits() {
    let a = big(u128::MAX);
    let b = big(u128::MAX - 12345);
    let product = a.mul(&b);
    assert_eq!(product.to_u64(), None);
    let (q, r) = product.div_rem(&b);
    assert_eq!(q, a);
    assert!(r.is_zero());
    let (q2, r2) = product.add(&big(99)).div_rem(&a);
    assert_eq!(q2, b);
    assert_eq!(r2, big(99));
}

#[test]
fn comparisons_follow_the_numbers() {
    let values = [0u128, 1, 2, 0xffff_ffff, 0x1_0000_0000, 0x1_0000_0001, u64::MAX as u128,
        1u128 << 64, (1u128 << 64) + 1, u128::MAX - 1, u128::MAX];
    for a in values {
        for b in values {
            assert_eq!(big(a).lt(&big(b)), a < b);
            assert_eq!(big(a).le(&big(b)), a <= b);
            assert_eq!(big(a).gt(&big(b)), a > b);
            assert_eq!(big(a).ge(&big(b)), a >= b);
            assert_eq!(big(a) == big(b), a == b);
        }
    }
}

#[test]
fn clone_is_equal() {
    let a = big(0xdead_beef_dead_beef_dead_beef);
    assert_eq!(a.clone(), a);
}

#[test]
fn bytes_round_trip() {
    assert_eq!(BigUint::zero().to_bytes_be(), Vec::<u8>::new());
    assert_eq!(big(1).to_bytes_be(), vec![1u8]);
    assert_eq!(big(255).to_bytes_be(), vec![255u8]);
    assert_eq!(big(256).to_bytes_be(), vec![1u8, 0]);
    assert_eq!(big(0x0102_0304_05).to_bytes_be(), vec![1u8, 2, 3, 4, 5]);
    assert_eq!(BigUint::from_bytes_be(&[]), big(0));
    assert_eq!(BigUint::from_bytes_be(&[0, 0, 1, 2]), big(0x0102));
    assert_eq!(BigUint::from_bytes_be(&[1, 2, 3, 4, 5]), big(0x0102_0304_05));
    let x = 0x0123_4567_89ab_cdef_0011_2233_4455_6677u128;
    assert_eq!(big(x).to_bytes_be(), x.to_be_bytes()[..].to_vec());
    assert_eq!(BigUint::from_bytes_be(&x.to_be_bytes()), big(x));
    let wide = big(u128::MAX).mul(&big(u128::MAX));
    assert_eq!(BigUint::from_bytes_be(&wide.to_bytes_be()), wide);
    assert_eq!(wide.to_bytes_be().len(), 32);
}

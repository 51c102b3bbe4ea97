use filevis::natural::Natural;

#[test]
fn small_numbers_order_as_integers() {
    let values = [0u64, 1, 2, 255, 1 << 32, u64::MAX - 1, u64::MAX];
    for a in values {
        for b in values {
            assert_eq!(Natural::from_u64(a).le(&Natural::from_u64(b)), a <= b);
        }
    }
}

#[test]
fn products_agree_with_wide_arithmetic() {
    let values = [0u64, 1, 3, 1 << 31, (1 << 32) + 5, u64::MAX];
    for a in values {
        for b in values {
            for c in values {
                for d in values {
                    let left = Natural::from_u64(a).mul_small(b);
                    let right = Natural::from_u64(c).mul_small(d);
                    let expected = (a as u128) * (b as u128) <= (c as u128) * (d as u128);
                    assert_eq!(left.le(&right), expected);
                }
            }
        }
    }
}

#[test]
fn carries_reach_a_new_limb() {
    let two_to_64 = Natural::from_u64(1 << 63).mul_small(2);
    let below = Natural::from_u64(u64::MAX);
    assert!(below.le(&two_to_64));
    assert!(!two_to_64.le(&below));
    assert!(two_to_64.le(&two_to_64));
}

#[test]
fn multiplying_by_zero_gives_zero() {
    let big = Natural::from_u64(u64::MAX).mul_small(u64::MAX).mul_small(u64::MAX);
    let zero = big.mul_small(0);
    assert!(zero.le(&Natural::from_u64(0)));
    assert!(Natural::from_u64(0).le(&zero));
    assert!(!big.le(&zero));
}

#[test]
fn long_products_compare_by_their_value() {
    // 3^200 against 2^317: log2(3^200) is about 316.99.
    let mut three = Natural::from_u64(1);
    for _ in 0..200 {
        three = three.mul_small(3);
    }
    let mut two = Natural::from_u64(1);
    for _ in 0..316 {
        two = two.mul_small(2);
    }
    assert!(two.le(&three));
    assert!(!three.le(&two));
    let two = two.mul_small(2);
    assert!(three.le(&two));
    assert!(!two.le(&three));
}

#[test]
fn multiplication_order_does_not_matter() {
    let a = Natural::from_u64(u64::MAX).mul_small(12345).mul_small(u64::MAX - 7);
    let b = Natural::from_u64(u64::MAX - 7).mul_small(u64::MAX).mul_small(12345);
    assert!(a.le(&b));
    assert!(b.le(&a));
}

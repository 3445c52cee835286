use stark_parser::felt::Felt;

fn modulus_minus(n: u128) -> Felt {
    Felt::zero().sub(&Felt::from_u128(n))
}

#[test]
fn zero_and_one() {
    assert!(Felt::zero().is_zero());
    assert!(!Felt::one().is_zero());
    assert_eq!(Felt::one(), Felt::from_u64(1));
    assert_eq!(Felt::zero().limbs(), (0, 0));
}

#[test]
fn addition_wraps_at_the_modulus() {
    let top = modulus_minus(1);
    assert_eq!(top.limbs(), (0x0800_0000_0000_0011_0000_0000_0000_0000, 0));
    assert_eq!(top.add(&Felt::one()), Felt::zero());
    assert_eq!(top.add(&Felt::from_u64(5)), Felt::from_u64(4));
    assert_eq!(Felt::from_u64(2).add(&Felt::from_u64(3)), Felt::from_u64(5));
}

#[test]
fn addition_carries_between_limbs() {
    let a = Felt::from_u128(u128::MAX);
    let sum = a.add(&Felt::one());
    assert_eq!(sum.limbs(), (1, 0));
    assert_eq!(sum.sub(&Felt::one()), a);
}

#[test]
fn subtraction_borrows_from_the_modulus() {
    let d = Felt::from_u64(3).sub(&Felt::from_u64(5));
    assert_eq!(d, modulus_minus(2));
    assert_eq!(d.add(&Felt::from_u64(2)), Felt::zero());
    assert_eq!(Felt::from_u64(9).sub(&Felt::from_u64(4)), Felt::from_u64(5));
}

#[test]
fn from_limbs_reduces() {
    let p_hi: u128 = 0x0800_0000_0000_0011_0000_0000_0000_0000;
    assert_eq!(Felt::from_limbs(p_hi, 1), Felt::zero());
    assert_eq!(Felt::from_limbs(p_hi, 8), Felt::from_u64(7));
    // 2^256 - 1 is one less than the square of 2^128
    let all = Felt::from_limbs(u128::MAX, u128::MAX);
    let two_128 = Felt::from_limbs(1, 0);
    let two_256 = two_128.mul(&two_128);
    assert_eq!(all.add(&Felt::one()), two_256);
}

#[test]
fn multiplication_small_values() {
    assert_eq!(Felt::from_u64(6).mul(&Felt::from_u64(7)), Felt::from_u64(42));
    assert_eq!(Felt::from_u64(6).mul(&Felt::zero()), Felt::zero());
    assert_eq!(Felt::one().mul(&Felt::from_u64(99)), Felt::from_u64(99));
}

#[test]
fn multiplication_reduces() {
    // (p - 1)^2 = 1 and (p - 1) * 2 = p - 2
    let top = modulus_minus(1);
    assert_eq!(top.mul(&top), Felt::one());
    assert_eq!(top.mul(&Felt::from_u64(2)), modulus_minus(2));
    // 2^128 * 2^128 = 2^256 = 32 * p - 544 * 2^192 - 32
    let two_128 = Felt::from_limbs(1, 0);
    let two_192 = Felt::from_limbs(1 << 64, 0);
    let expected = Felt::zero()
        .sub(&Felt::from_u64(544).mul(&two_192))
        .sub(&Felt::from_u64(32));
    assert_eq!(two_128.mul(&two_128), expected);
}

#[test]
fn half_doubles_back() {
    for v in [0u64, 1, 2, 7, 1000] {
        let x = Felt::from_u64(v);
        let h = x.half();
        assert_eq!(h.add(&h), x);
    }
    assert_eq!(Felt::from_u64(10).half(), Felt::from_u64(5));
    // half of one is (p + 1) / 2
    assert_eq!(
        Felt::one().half().limbs(),
        (0x0400_0000_0000_0008_8000_0000_0000_0000, 1)
    );
}

#[test]
fn inverse_of_zero_is_none() {
    assert_eq!(Felt::zero().inverse(), None);
}

#[test]
fn inverse_multiplies_to_one() {
    for v in [1u64, 2, 3, 5, 17, 65537, u64::MAX] {
        let x = Felt::from_u64(v);
        let inv = x.inverse().unwrap();
        assert_eq!(x.mul(&inv), Felt::one());
    }
    assert_eq!(Felt::one().inverse(), Some(Felt::one()));
    assert_eq!(Felt::from_u64(2).inverse(), Some(Felt::one().half()));
    let top = modulus_minus(1);
    assert_eq!(top.inverse(), Some(top));
}

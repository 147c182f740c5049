use zokrates_core::field::FieldElement;

fn minus_one() -> FieldElement {
    FieldElement::zero().sub(&FieldElement::one())
}

#[test]
fn addition_of_small_values() {
    let a = FieldElement::from_u64(3);
    let b = FieldElement::from_u64(4);
    assert_eq!(a.add(&b), FieldElement::from_u64(7));
}

#[test]
fn addition_wraps_at_the_modulus() {
    assert_eq!(minus_one().add(&FieldElement::one()), FieldElement::zero());
    assert_eq!(minus_one().add(&FieldElement::from_u64(2)), FieldElement::one());
}

#[test]
fn addition_carries_between_limbs() {
    let big = FieldElement::from_u64(u64::MAX);
    let square = big.mul(&big);
    // (2^64 - 1)^2 + (2^65 - 1) = 2^128, which needs the high limb
    let rest = big.add(&big).add(&FieldElement::one());
    let sum = square.add(&rest);
    let two_to_64 = big.add(&FieldElement::one());
    assert_eq!(sum, two_to_64.mul(&two_to_64));
    assert_eq!(sum.sub(&rest), square);
}

#[test]
fn subtraction_below_zero_wraps() {
    let three = FieldElement::from_u64(3);
    let five = FieldElement::from_u64(5);
    assert_eq!(five.sub(&three), FieldElement::from_u64(2));
    let negative = three.sub(&five);
    assert_eq!(negative.add(&FieldElement::from_u64(2)), FieldElement::zero());
    assert_eq!(negative, minus_one().sub(&FieldElement::one()));
}

#[test]
fn multiplication_exact_values() {
    let a = FieldElement::from_u64(3);
    let b = FieldElement::from_u64(4);
    assert_eq!(a.mul(&b), FieldElement::from_u64(12));
    assert_eq!(a.mul(&FieldElement::zero()), FieldElement::zero());
    assert_eq!(a.mul(&FieldElement::one()), a);
    // (-1) * (-1) = 1
    assert_eq!(minus_one().mul(&minus_one()), FieldElement::one());
    // (-1) * 5 = -5
    let five = FieldElement::from_u64(5);
    assert_eq!(minus_one().mul(&five).add(&five), FieldElement::zero());
}

#[test]
fn division_is_the_inverse_of_multiplication() {
    let six = FieldElement::from_u64(6);
    let three = FieldElement::from_u64(3);
    assert_eq!(six.div(&three), Some(FieldElement::from_u64(2)));
    let half = FieldElement::one().div(&FieldElement::from_u64(2)).unwrap();
    assert_eq!(half.add(&half), FieldElement::one());
    let big = FieldElement::from_u64(u64::MAX);
    assert_eq!(big.mul(&big).div(&big), Some(big));
}

#[test]
fn division_by_zero_has_no_result() {
    assert_eq!(FieldElement::one().div(&FieldElement::zero()), None);
    assert_eq!(FieldElement::zero().div(&FieldElement::zero()), None);
}

#[test]
fn zero_and_order() {
    assert!(FieldElement::zero().is_zero());
    assert!(!FieldElement::one().is_zero());
    assert!(FieldElement::one().less_than(&FieldElement::from_u64(2)));
    assert!(!FieldElement::from_u64(2).less_than(&FieldElement::from_u64(2)));
    assert!(FieldElement::from_u64(u64::MAX).less_than(&minus_one()));
}

#[test]
fn bytes_are_little_endian() {
    let bytes = FieldElement::from_u64(0x0102).to_bytes();
    assert_eq!(bytes.len(), 32);
    assert_eq!(bytes[0], 2);
    assert_eq!(bytes[1], 1);
    assert!(bytes[2..].iter().all(|b| *b == 0));
    // the modulus less one ends in the bytes of its high limb
    let top = minus_one().to_bytes();
    assert_eq!(top[0], 0);
    assert_eq!(top[31], 0x30);
}

#[test]
fn integers_stand_for_elements() {
    assert_eq!(FieldElement::from(7u64), FieldElement::from_u64(7));
    assert_eq!(FieldElement::from(7u32), FieldElement::from_u64(7));
    assert_eq!(FieldElement::from(7usize), FieldElement::from_u64(7));
    assert_eq!(FieldElement::from(7), FieldElement::from_u64(7));
    assert_eq!(FieldElement::from(0), FieldElement::zero());
    assert_eq!(FieldElement::from(-1), minus_one());
    assert_eq!(
        FieldElement::from(i32::MIN).add(&FieldElement::from_u64(1 << 31)),
        FieldElement::zero()
    );
}

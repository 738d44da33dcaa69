use nft_airdrop::biguint::BigUint;

fn oracle(bytes: &[u8]) -> num_bigint::BigUint {
    num_bigint::BigUint::from_bytes_be(bytes)
}

fn strip(bytes: Vec<u8>) -> Vec<u8> {
    let first = bytes.iter().position(|b| *b != 0).unwrap_or(bytes.len());
    bytes[first..].to_vec()
}

const A: [u8; 20] = [
    0xde, 0xad, 0xbe, 0xef, 0x01, 0x23, 0x45, 0x67, 0x89, 0xab, 0xcd, 0xef, 0xff, 0xff, 0x00, 0x00,
    0x10, 0x20, 0x30, 0x40,
];

const B: [u8; 9] = [0x01, 0x00, 0x00, 0x00, 0x00, 0x00, 0x00, 0x00, 0x07];

#[test]
fn zero_is_zero() {
    assert!(BigUint::zero().is_zero());
    assert_eq!(BigUint::zero(), BigUint::from_u64(0));
    assert_eq!(BigUint::zero().to_bytes_be(), Vec::<u8>::new());
    assert!(!BigUint::from_u64(1).is_zero());
}

#[test]
fn from_u64_gives_big_endian_digits() {
    assert_eq!(BigUint::from_u64(0x0102).to_bytes_be(), vec![1, 2]);
    assert_eq!(BigUint::from_u64(256).to_bytes_be(), vec![1, 0]);
    assert_eq!(BigUint::from_u64(u64::MAX).to_bytes_be(), vec![0xff; 8]);
}

#[test]
fn leading_zeros_do_not_count() {
    let plain = BigUint::from_bytes_be(&[0x12, 0x34]);
    let padded = BigUint::from_bytes_be(&[0, 0, 0, 0x12, 0x34]);
    assert_eq!(plain, padded);
    assert!(plain.equals(&padded));
    assert_eq!(padded.to_bytes_be(), vec![0x12, 0x34]);
    assert!(BigUint::from_bytes_be(&[0, 0, 0]).is_zero());
    assert!(BigUint::from_bytes_be(&[]).is_zero());
}

#[test]
fn bytes_round_trip() {
    assert_eq!(BigUint::from_bytes_be(&A).to_bytes_be(), A.to_vec());
    assert_eq!(BigUint::from_bytes_be(&B).to_bytes_be(), B.to_vec());
}

#[test]
fn equals_tells_numbers_apart() {
    assert!(BigUint::from_u64(77).equals(&BigUint::from_u64(77)));
    assert!(!BigUint::from_u64(77).equals(&BigUint::from_u64(78)));
    assert!(!BigUint::from_u64(1).equals(&BigUint::from_u64(256)));
}

#[test]
fn clone_is_the_same_number() {
    let a = BigUint::from_bytes_be(&A);
    assert_eq!(a.clone(), a);
}

#[test]
fn add_carries_over_digits() {
    let sum = BigUint::from_u64(u64::MAX).add(&BigUint::from_u64(1));
    assert_eq!(sum.to_bytes_be(), vec![1, 0, 0, 0, 0, 0, 0, 0, 0]);
    assert_eq!(BigUint::from_u64(10).add(&BigUint::from_u64(5)), BigUint::from_u64(15));
    assert_eq!(BigUint::zero().add(&BigUint::zero()), BigUint::zero());
}

#[test]
fn add_agrees_with_num_bigint() {
    let sum = BigUint::from_bytes_be(&A).add(&BigUint::from_bytes_be(&B));
    assert_eq!(sum.to_bytes_be(), strip((oracle(&A) + oracle(&B)).to_bytes_be()));
}

#[test]
fn checked_sub_borrows_over_digits() {
    let big = BigUint::from_bytes_be(&[1, 0, 0, 0, 0, 0, 0, 0, 0]);
    assert_eq!(big.checked_sub(&BigUint::from_u64(1)), Some(BigUint::from_u64(u64::MAX)));
    assert_eq!(BigUint::from_u64(5).checked_sub(&BigUint::from_u64(5)), Some(BigUint::zero()));
    assert_eq!(BigUint::from_u64(5).checked_sub(&BigUint::from_u64(6)), None);
}

#[test]
fn checked_sub_agrees_with_num_bigint() {
    let diff = BigUint::from_bytes_be(&A).checked_sub(&BigUint::from_bytes_be(&B)).unwrap();
    assert_eq!(diff.to_bytes_be(), strip((oracle(&A) - oracle(&B)).to_bytes_be()));
    assert_eq!(BigUint::from_bytes_be(&B).checked_sub(&BigUint::from_bytes_be(&A)), None);
}

#[test]
fn mul_u32_agrees_with_num_bigint() {
    let product = BigUint::from_bytes_be(&A).mul_u32(u32::MAX);
    assert_eq!(product.to_bytes_be(), strip((oracle(&A) * u32::MAX).to_bytes_be()));
    assert_eq!(BigUint::from_u64(7).mul_u32(6), BigUint::from_u64(42));
    assert!(BigUint::from_bytes_be(&A).mul_u32(0).is_zero());
}

#[test]
fn checked_div_rounds_down() {
    assert_eq!(
        BigUint::from_u64(100).checked_div(&BigUint::from_u64(3)),
        Some(BigUint::from_u64(33))
    );
    assert_eq!(BigUint::from_u64(2).checked_div(&BigUint::from_u64(3)), Some(BigUint::zero()));
    assert_eq!(BigUint::from_u64(9).checked_div(&BigUint::from_u64(3)), Some(BigUint::from_u64(3)));
    assert_eq!(BigUint::from_u64(9).checked_div(&BigUint::zero()), None);
}

#[test]
fn checked_div_agrees_with_num_bigint() {
    let quotient = BigUint::from_bytes_be(&A).checked_div(&BigUint::from_bytes_be(&B)).unwrap();
    assert_eq!(quotient.to_bytes_be(), strip((oracle(&A) / oracle(&B)).to_bytes_be()));
    let small = BigUint::from_bytes_be(&B).checked_div(&BigUint::from_bytes_be(&A)).unwrap();
    assert!(small.is_zero());
}

#[test]
fn checked_rem_agrees_with_num_bigint() {
    let rest = BigUint::from_bytes_be(&A).checked_rem(&BigUint::from_bytes_be(&B)).unwrap();
    assert_eq!(rest.to_bytes_be(), strip((oracle(&A) % oracle(&B)).to_bytes_be()));
    assert_eq!(BigUint::from_u64(100).checked_rem(&BigUint::from_u64(3)), Some(BigUint::from_u64(1)));
    assert_eq!(BigUint::from_u64(100).checked_rem(&BigUint::zero()), None);
}

#[test]
fn quotient_and_remainder_rebuild_the_dividend() {
    let a = BigUint::from_bytes_be(&A);
    let three = BigUint::from_u64(3);
    let q = a.checked_div(&three).unwrap();
    let r = a.checked_rem(&three).unwrap();
    assert_eq!(q.mul_u32(3).add(&r), a);
}

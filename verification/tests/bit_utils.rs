use bit_vec::BitVec;
use ibe_schemes::bit_utils::bit_at;
use ibe_schemes::group_functions::{multi_pairing, pairing, scalar_mul_g1, scalar_mul_g2};
use ibe_schemes::{field_element, GroupCtx};

#[test]
fn bit_at_counts_from_the_most_significant_bit() {
    let message = [0b1000_0000u8, 0b0000_0001];
    assert_eq!(bit_at(0, &message), 1);
    assert_eq!(bit_at(1, &message), 0);
    assert_eq!(bit_at(7, &message), 0);
    assert_eq!(bit_at(15, &message), 1);
}

#[test]
fn bit_at_agrees_with_a_bit_vector() {
    let message = [0x3au8, 0xc5, 0x00, 0xff, 0x81];
    let bits = BitVec::from_bytes(&message);
    for i in 0..40 {
        assert_eq!(bit_at(i, &message), if bits[i] { 1 } else { 0 });
    }
}

#[test]
fn free_group_functions_agree_with_the_context() {
    let group = GroupCtx::bls12_381();
    let p = scalar_mul_g1(field_element(5));
    let q = scalar_mul_g2(field_element(9));
    assert!(p == group.scalar_mul_p1(field_element(5)));
    assert!(q == group.scalar_mul_p2(field_element(9)));
    assert!(p != group.g1);
    assert!(pairing(&p, &q) == group.scalar_expo_gt(field_element(45)));
    assert!(multi_pairing(&[(p, q), (p, q)]) == group.scalar_expo_gt(field_element(90)));
}

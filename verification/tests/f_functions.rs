use ibe_schemes::f_functions::{f_i, f_prime_i};
use ibe_schemes::field_element;

#[test]
fn test_f_0() {
    let l = 128;
    let msg = [];
    assert!(f_i(0, l, &msg) == field_element(0));
}

#[test]
fn test_f_1() {
    let l = 128;
    let msg = [];
    assert!(f_i(1, l, &msg) == field_element(0));
}

#[test]
fn test_f_i_larger_than_l() {
    let l = 128;
    let msg = [];
    // (258 - 2)/2 = 128 >= l
    assert!(f_i(258, l, &msg) == field_element(0));
}

#[test]
fn test_f_i_larger_than_msg() {
    let l = 128;
    let msg = [0, 1, 2, 3, 4, 5];
    // (128 - 2)/2 = 63 < l, but 63 > msg.len()*8
    assert!(f_i(128, l, &msg) == field_element(0));
}

#[test]
fn test_f_n() {
    let l = 128;
    let msg = [
        8, 150, 201, 77, 104, 204, 30, 51, 189, 255, 234, 17, 48, 111, 0, 1,
    ];
    assert!(f_i(6, l, &msg) == field_element(1));
    assert!(f_i(35, l, &msg) == field_element(1));
    assert!(f_i(100, l, &msg) == field_element(0));
    assert!(f_i(159, l, &msg) == field_element(1));
    assert!(f_i(201, l, &msg) == field_element(0));
    assert!(f_i(257, l, &msg) == field_element(0));
}

#[test]
fn test_f_prime_0() {
    assert!(f_prime_i(0) == field_element(1));
}

#[test]
fn test_f_prime_1() {
    assert!(f_prime_i(1) == field_element(0));
}

#[test]
fn test_f_prime_n() {
    assert!(f_prime_i(2) == field_element(0));
    assert!(f_prime_i(5) == field_element(0));
    assert!(f_prime_i(94) == field_element(0));
    assert!(f_prime_i(1354154) == field_element(0));
}

#[test]
fn f_i_is_one_hot_for_every_bit_of_the_message() {
    let msg = [0b1010_0110u8, 0x3c];
    let l = 16;
    for bit in 0..16usize {
        let value = ((msg[bit / 8] >> (bit % 8)) & 1) as usize;
        let clear = f_i(2 + 2 * bit, l, &msg);
        let set = f_i(3 + 2 * bit, l, &msg);
        assert!(f_i(2 + 2 * bit + value, l, &msg) == field_element(1));
        assert!(f_i(2 + 2 * bit + (1 - value), l, &msg) == field_element(0));
        assert!(clear != set);
    }
}

#[test]
fn f_i_reads_bits_from_the_least_significant_end() {
    let msg = [0b0000_0001u8];
    assert!(f_i(3, 8, &msg) == field_element(1));
    assert!(f_i(2, 8, &msg) == field_element(0));
    assert!(f_i(2 + 2 * 7, 8, &msg) == field_element(1));
    assert!(f_i(3 + 2 * 7, 8, &msg) == field_element(0));
}

#[test]
fn f_i_is_zero_beyond_the_message_and_beyond_l() {
    let msg = [0xffu8];
    assert!(f_i(3 + 2 * 8, 64, &msg) == field_element(0));
    assert!(f_i(2 + 2 * 8, 64, &msg) == field_element(0));
    assert!(f_i(3 + 2 * 4, 4, &msg) == field_element(0));
    assert!(f_i(3 + 2 * 3, 4, &msg) == field_element(1));
}

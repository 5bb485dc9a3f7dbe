use ibe_schemes::bb::BB;
use ibe_schemes::field_utils::random_field_element;
use ibe_schemes::{field_element, GTElement, GroupCtx};

fn run_scheme(user_identity: &str, ct_identity: &str) -> (GTElement, Option<GTElement>) {
    let bb = BB::new();
    let (msk, mpk) = bb.setup();

    let usk = bb.keygen(&msk, String::from(user_identity));

    let k = GroupCtx::bls12_381().scalar_expo_gt(random_field_element());
    let ct = bb.encrypt(&k, &mpk, String::from(ct_identity));

    let dec = bb.decrypt(&usk, &ct);
    return (k, dec);
}

fn check_decrypt_ok(user_identity: &str, ct_identity: &str) {
    let (k, dec) = run_scheme(user_identity, ct_identity);
    assert!(dec.is_some_and(|k_dec| k_dec == k));
}

fn check_decrypt_fail(user_identity: &str, ct_identity: &str) {
    let (_, dec) = run_scheme(user_identity, ct_identity);
    assert!(dec.is_none());
}

#[test]
fn bb_minimal_ok() {
    check_decrypt_ok("A", "A");
}

#[test]
fn bb_longer_ok() {
    check_decrypt_ok("ABCDEFG", "ABCDEFG");
}

#[test]
fn bb_minimal_fail() {
    check_decrypt_fail("A", "B");
}

#[test]
fn bb_longer_fail() {
    check_decrypt_fail("ABCDEFG", "ABCDeFG");
}

#[test]
fn bb_public_key_lifts_the_secrets() {
    let bb = BB::new();
    let group = GroupCtx::bls12_381();
    let (msk, mpk) = bb.setup_with(field_element(5), field_element(7), field_element(11));
    assert!(msk.alpha == field_element(5));
    assert!(mpk.a == group.scalar_expo_gt(field_element(5)));
    assert!(mpk.b_0_g1 == group.scalar_mul_p1(field_element(7)));
    assert!(mpk.b_0_g2 == group.scalar_mul_p2(field_element(7)));
    assert!(mpk.b_1_g1 == group.scalar_mul_p1(field_element(11)));
    assert!(mpk.b_1_g2 == group.scalar_mul_p2(field_element(11)));
}

#[test]
fn bb_key_of_another_identity_opens_to_another_message() {
    let bb = BB::new();
    let group = GroupCtx::bls12_381();
    let (msk, mpk) = bb.setup();
    let mut usk = bb.keygen(&msk, String::from("alice"));
    let message = group.scalar_expo_gt(field_element(42));
    let ct = bb.encrypt(&message, &mpk, String::from("bob"));
    usk.identity = String::from("bob");
    let opened = bb.decrypt(&usk, &ct);
    assert!(opened.is_some());
    assert!(opened != Some(message));
}

#[test]
fn bb_fixed_randomness_gives_fixed_ciphertext() {
    let bb = BB::new();
    let group = GroupCtx::bls12_381();
    let (_, mpk) = bb.setup_with(field_element(2), field_element(3), field_element(4));
    let message = group.scalar_expo_gt(field_element(10));
    let first = bb.encrypt_with(field_element(6), &message, &mpk, String::from("id"));
    let second = bb.encrypt_with(field_element(6), &message, &mpk, String::from("id"));
    assert!(first.s == group.scalar_mul_p1(field_element(6)));
    assert!(first.msg == group.scalar_expo_gt(field_element(2 * 6 + 10)));
    assert!(first.c == second.c);
    assert_eq!(first.identity, "id");
}

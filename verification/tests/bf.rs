use ibe_schemes::bf::BF;
use ibe_schemes::field_utils::random_field_element;
use ibe_schemes::hashing::hash_to_g1;
use ibe_schemes::{field_element, GroupCtx};

#[test]
fn bf_same_identity_recovers_the_message() {
    let bf = BF::new();
    let (msk, mpk) = bf.setup();
    let usk = bf.keygen(&msk, String::from("alice@example.org"));
    let message = GroupCtx::bls12_381().scalar_expo_gt(random_field_element());
    let ct = bf.encrypt(&message, &mpk, String::from("alice@example.org"));
    assert!(bf.decrypt(&usk, &ct) == Some(message));
}

#[test]
fn bf_other_identity_gives_nothing() {
    let bf = BF::new();
    let (msk, mpk) = bf.setup();
    let usk = bf.keygen(&msk, String::from("alice"));
    let message = GroupCtx::bls12_381().scalar_expo_gt(random_field_element());
    let ct = bf.encrypt(&message, &mpk, String::from("bob"));
    assert!(bf.decrypt(&usk, &ct).is_none());
}

#[test]
fn bf_key_of_another_identity_opens_to_another_message() {
    let bf = BF::new();
    let (msk, mpk) = bf.setup();
    let mut usk = bf.keygen(&msk, String::from("alice"));
    let message = GroupCtx::bls12_381().scalar_expo_gt(field_element(9));
    let ct = bf.encrypt(&message, &mpk, String::from("bob"));
    usk.identity = String::from("bob");
    let opened = bf.decrypt(&usk, &ct);
    assert!(opened.is_some());
    assert!(opened != Some(message));
}

#[test]
fn bf_fixed_randomness_gives_fixed_values() {
    let bf = BF::new();
    let group = GroupCtx::bls12_381();
    let (msk, mpk) = bf.setup_with(field_element(3));
    assert!(mpk.a == group.scalar_expo_gt(field_element(3)));
    let usk = bf.keygen_with(field_element(1), &msk, String::from("id"));
    assert!(usk.r == group.scalar_mul_p2(field_element(1)));
    let expected = ibe_schemes::field_utils::vector_add_g1(
        &vec![group.scalar_mul_p1(field_element(3))],
        &vec![hash_to_g1("id")],
    );
    assert!(usk.k == expected[0]);
    let message = group.scalar_expo_gt(field_element(4));
    let ct = bf.encrypt_with(field_element(1), &message, &mpk, String::from("id"));
    assert!(ct.c == hash_to_g1("id"));
    assert!(ct.msg == group.scalar_expo_gt(field_element(7)));
}

use ibe_schemes::hashing::generate_email_and_hash_identity;
use ibe_schemes::IBKEM2;

#[test]
fn test_ibkem2_ok() {
    let m_len = 128;
    let l = 2 * m_len + 1;
    let lambda = 128;
    let k = 2;

    let ibkem = IBKEM2::new(k, l, 0, lambda);
    let (pk, sk) = ibkem.setup();

    let (_, identity) = generate_email_and_hash_identity(128);

    let usk = ibkem.extract(&sk, &identity);
    let (ct, k) = ibkem.encrypt(&pk, &identity);
    let k_dec = ibkem.decrypt(&pk, &usk, &identity, &ct);

    assert!(k_dec.is_some_and(|k_dec| k_dec == k));
}

#[test]
fn test_ibkem2_fail() {
    let m_len = 128;
    let l = 2 * m_len + 1;
    let lambda = 128;
    let k = 2;

    let ibkem = IBKEM2::new(k, l, 0, lambda);
    let (pk, sk) = ibkem.setup();

    let (_, identity) = generate_email_and_hash_identity(128);
    let (ct, _) = ibkem.encrypt(&pk, &identity);

    let (_, new_identity) = generate_email_and_hash_identity(128);
    let new_usk = ibkem.extract(&sk, &new_identity);
    let k_dec = ibkem.decrypt(&pk, &new_usk, &new_identity, &ct);

    assert!(k_dec.is_none());
}

#[test]
fn ibkem2_right_key_with_wrong_identity_gives_nothing() {
    let ibkem = IBKEM2::new(2, 17, 0, 32);
    let (pk, sk) = ibkem.setup();
    let usk = ibkem.extract(&sk, &[0x11u8]);
    let (ct, key) = ibkem.encrypt(&pk, &[0x11u8]);
    assert!(ibkem.decrypt(&pk, &usk, &[0x11u8], &ct) == Some(key));
    assert!(ibkem.decrypt(&pk, &usk, &[0x12u8], &ct).is_none());
}

#[test]
fn ibkem2_changed_ciphertext_gives_nothing() {
    let ibkem = IBKEM2::new(2, 17, 0, 32);
    let (pk, sk) = ibkem.setup();
    let usk = ibkem.extract(&sk, &[0x11u8]);
    let (mut ct, _) = ibkem.encrypt(&pk, &[0x11u8]);
    let (other, _) = ibkem.encrypt(&pk, &[0x11u8]);
    ct.c0_g1[0] = other.c0_g1[0];
    assert!(ibkem.decrypt(&pk, &usk, &[0x11u8], &ct).is_none());
}

#[test]
fn ibkem2_wrong_key_with_right_identity_gives_another_key() {
    let ibkem = IBKEM2::new(2, 17, 0, 32);
    let (pk, sk) = ibkem.setup();
    let other_usk = ibkem.extract(&sk, &[0x77u8]);
    let (ct, key) = ibkem.encrypt(&pk, &[0x11u8]);
    let opened = ibkem.decrypt(&pk, &other_usk, &[0x11u8], &ct);
    assert!(opened.is_some());
    assert!(opened != Some(key));
}

#[test]
fn ibkem2_ciphertext_carries_a_proof_of_the_configured_dimensions() {
    let k = 2;
    let ibkem = IBKEM2::new(k, 9, 0, 16);
    let (pk, _) = ibkem.setup();
    let (ct, _) = ibkem.encrypt(&pk, &[1u8]);
    assert_eq!(ct.c0_g1.len(), 3 * k);
    assert_eq!(ct.c1_g1.len(), k);
    assert_eq!(ct.proof.t1_g1.len(), k);
    assert_eq!(ct.proof.u1_g1.len(), k + 1);
    assert_eq!(pk.crs.kjb_a_g2.len(), 16);
}

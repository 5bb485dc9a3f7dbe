use ibe_schemes::field_utils::random_vector;
use ibe_schemes::hashing::generate_email_and_hash_identity;
use ibe_schemes::{IBKEM1Ciphertext, IBKEM1};

#[test]
fn test_ibkem1_ok() {
    let m_len = 128;
    let l = 2 * m_len + 1;
    let ibkem = IBKEM1::new(2, l, 0);
    let (pk, sk) = ibkem.setup();

    let (_, identity) = generate_email_and_hash_identity(128);

    let usk = ibkem.extract(&sk, &identity);
    let (ct, k) = ibkem.encrypt(&pk, &identity);
    let k_dec = ibkem.decrypt(&usk, &ct);

    assert!(k_dec == Some(k))
}

#[test]
fn test_ibkem1_fail() {
    let m_len = 128;
    let l = 2 * m_len + 1;
    let ibkem = IBKEM1::new(2, l, 0);
    let (pk, sk) = ibkem.setup();

    let (_, identity) = generate_email_and_hash_identity(128);
    let (ct, k) = ibkem.encrypt(&pk, &identity);

    let (_, new_identity) = generate_email_and_hash_identity(128);
    let new_usk = ibkem.extract(&sk, &new_identity);
    let k_dec = ibkem.decrypt(&new_usk, &ct);

    assert!(k_dec != Some(k));
    assert!(k_dec.is_some());
}

#[test]
fn ibkem1_small_round_trip_with_two_user_keys() {
    let ibkem = IBKEM1::new(2, 17, 0);
    let (pk, sk) = ibkem.setup();
    let identity = [0x5au8];
    let first = ibkem.extract(&sk, &identity);
    let second = ibkem.extract(&sk, &identity);
    assert!(first.t_g2 != second.t_g2);
    let (ct, key) = ibkem.encrypt(&pk, &identity);
    assert!(ibkem.decrypt(&first, &ct) == Some(key));
    assert!(ibkem.decrypt(&second, &ct) == Some(key));
}

#[test]
fn ibkem1_keys_and_ciphertexts_have_the_configured_dimensions() {
    let k = 2;
    let ibkem = IBKEM1::new(k, 9, 0);
    let (pk, sk) = ibkem.setup();
    assert_eq!(pk.m_matrix.len(), 3 * k);
    assert!(pk.m_matrix.iter().all(|row| row.len() == k));
    assert_eq!(pk.z_matrices.len(), 10);
    assert!(pk.z_matrices.iter().all(|z| z.len() == k && z.iter().all(|row| row.len() == k)));
    assert_eq!(pk.z_prime_vectors.len(), 1);
    assert_eq!(pk.z_prime_vectors[0].len(), k);
    assert_eq!(sk.y_matrices.len(), 10);
    assert_eq!(sk.y_prime_vectors.len(), 1);
    let usk = ibkem.extract(&sk, &[1u8]);
    assert_eq!(usk.t_g2.len(), k);
    assert_eq!(usk.u_g2.len(), 2 * k);
    assert_eq!(usk.v_g2.len(), k);
    let (ct, _) = ibkem.encrypt(&pk, &[1u8]);
    assert_eq!(ct.c0_g1.len(), 3 * k);
    assert_eq!(ct.c1_g1.len(), k);
}

#[test]
fn ibkem1_empty_ciphertext_gives_nothing() {
    let ibkem = IBKEM1::new(2, 9, 0);
    let (pk, sk) = ibkem.setup();
    let usk = ibkem.extract(&sk, &[1u8]);
    let (ct, _) = ibkem.encrypt(&pk, &[1u8]);
    let no_c0 = IBKEM1Ciphertext { c0_g1: Vec::new(), c1_g1: ct.c1_g1.clone() };
    let no_c1 = IBKEM1Ciphertext { c0_g1: ct.c0_g1.clone(), c1_g1: Vec::new() };
    assert!(ibkem.decrypt(&usk, &no_c0).is_none());
    assert!(ibkem.decrypt(&usk, &no_c1).is_none());
}

#[test]
fn ibkem1_same_randomness_gives_same_ciphertext_and_key() {
    let ibkem = IBKEM1::new(2, 9, 0);
    let (pk, sk) = ibkem.setup();
    let r = random_vector(2);
    let (first, first_key) = ibkem.encrypt_with(&pk, &[9u8], &r);
    let (second, second_key) = ibkem.encrypt_with(&pk, &[9u8], &r);
    assert!(first.c0_g1 == second.c0_g1);
    assert!(first.c1_g1 == second.c1_g1);
    assert!(first_key == second_key);
    let (other, other_key) = ibkem.encrypt(&pk, &[9u8]);
    assert!(other.c0_g1 != first.c0_g1);
    assert!(other_key != first_key);
    let usk = ibkem.extract(&sk, &[9u8]);
    assert!(ibkem.decrypt(&usk, &other) == Some(other_key));
}

use ibe_schemes::field_utils::{vector_lift_g1, vector_lift_g2};
use ibe_schemes::{
    field_element, AffineMAC, FieldElement, GroupCtx, Matrix, SecretKey, Vector, IBKEM1,
};

fn vector(values: &[u64]) -> Vector {
    values.iter().map(|v| field_element(*v)).collect()
}

fn matrix(rows: &[&[u64]]) -> Matrix<FieldElement> {
    rows.iter().map(|row| vector(row)).collect()
}

fn small_mac_key() -> SecretKey {
    SecretKey {
        b: matrix(&[&[2]]),
        x_matrices: vec![
            matrix(&[&[11], &[12]]),
            matrix(&[&[13], &[14]]),
            matrix(&[&[15], &[16]]),
            matrix(&[&[3], &[4]]),
        ],
        x_prime: vec![vector(&[7, 8])],
    }
}

#[test]
fn tag_is_the_selected_matrix_times_t_plus_the_constant() {
    let mac = AffineMAC::new(1, 3, 0);
    let sk = small_mac_key();
    // Bit 0 of the message is set: index 3 is the only active one.
    let tag = mac.tag_with(&sk, &[0b0000_0001], &vector(&[5]));
    assert!(tag.t_field == vector(&[10]));
    assert!(tag.t_g2 == vector_lift_g2(&vector(&[10]), &mac.group));
    assert!(tag.u_g2 == vector_lift_g2(&vector(&[3 * 10 + 7, 4 * 10 + 8]), &mac.group));
    assert!(mac.verify(&sk, &[0b0000_0001], &tag));
    // Bit 0 clear: index 2 is the active one.
    let other = mac.tag_with(&sk, &[0b0000_0000], &vector(&[5]));
    assert!(other.u_g2 == vector_lift_g2(&vector(&[15 * 10 + 7, 16 * 10 + 8]), &mac.group));
    assert!(!mac.verify(&sk, &[0b0000_0000], &tag));
}

#[test]
fn key_encapsulation_on_small_values() {
    let kem = IBKEM1::new(1, 3, 0);
    let group = GroupCtx::bls12_381();
    let m = matrix(&[&[1], &[2], &[3]]);
    let y_matrices = vec![matrix(&[&[21]]), matrix(&[&[22]]), matrix(&[&[23]]), matrix(&[&[5]])];
    let y_prime = vec![vector(&[9])];
    let (pk, sk) = kem.setup_from(&m, small_mac_key(), y_matrices, y_prime);

    assert!(pk.m_matrix[0] == vector_lift_g1(&vector(&[1]), &group));
    // Z_3 = (Y_3 | X_3) M = 5*1 + 3*2 + 4*3, Z'_0 = (y' | x') M = 9*1 + 7*2 + 8*3.
    assert!(pk.z_matrices[3][0] == vector_lift_g1(&vector(&[23]), &group));
    assert!(pk.z_prime_vectors[0] == vector_lift_g1(&vector(&[47]), &group));

    let identity = [0b0000_0001u8];
    let (ct, key) = kem.encrypt_with(&pk, &identity, &vector(&[2]));
    assert!(ct.c0_g1 == vector_lift_g1(&vector(&[2, 4, 6]), &group));
    assert!(ct.c1_g1 == vector_lift_g1(&vector(&[46]), &group));
    assert!(key == group.scalar_expo_gt(field_element(94)));

    let usk = kem.extract_with(&sk, &identity, &vector(&[5]));
    assert!(usk.t_g2 == vector_lift_g2(&vector(&[10]), &group));
    assert!(usk.u_g2 == vector_lift_g2(&vector(&[37, 48]), &group));
    assert!(usk.v_g2 == vector_lift_g2(&vector(&[5 * 10 + 9]), &group));
    // c0.(V|U) - c1.T = 2*59 + 4*37 + 6*48 - 46*10 = 94.
    assert!(kem.decrypt(&usk, &ct) == Some(key));
}

#[test]
fn schemes_round_trip_for_other_dimensions() {
    for (k, bits, l_prime) in [(1usize, 3usize, 0usize), (3, 8, 1), (2, 5, 2)] {
        let l = 2 * bits + 1;
        let mac = AffineMAC::new(k, l, l_prime);
        let sk = mac.gen_mac();
        let tag = mac.tag(&sk, &[0xb6]);
        assert!(mac.verify(&sk, &[0xb6], &tag));
        assert!(!mac.verify(&sk, &[0xb7], &tag));

        let kem = IBKEM1::new(k, l, l_prime);
        let (pk, sk) = kem.setup();
        assert_eq!(pk.z_prime_vectors.len(), l_prime + 1);
        let usk = kem.extract(&sk, &[0xb6]);
        let (ct, key) = kem.encrypt(&pk, &[0xb6]);
        assert!(kem.decrypt(&usk, &ct) == Some(key));
        let other = kem.extract(&sk, &[0xb7]);
        assert!(kem.decrypt(&other, &ct) != Some(key));
    }
}

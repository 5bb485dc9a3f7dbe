use ark_ec::{CurveGroup, PrimeGroup};
use ark_ff::{BigInteger, PrimeField};
use ibe_schemes::field_utils::{
    matrix_lift_g1, matrix_vector_mul, random_matrix, random_vector, vector_lift_g1,
};
use ibe_schemes::hashing::generate_random_message_128;
use ibe_schemes::{field_element, Matrix, G1, QANIZK};

#[test]
fn qanizk_ok() {
    let k = 2;
    let lambda = 128;
    let qanizk = QANIZK::new(k, lambda);
    let m_matrix = random_matrix(3 * k, k);
    let m_g1_matrix: Matrix<G1> = matrix_lift_g1(&m_matrix, &qanizk.group);

    let (crs, _) = qanizk.gen_crs(&m_g1_matrix);

    let tag = generate_random_message_128();
    let r = random_vector(k);
    let c0_field = matrix_vector_mul(&m_matrix, &r);
    let c0_g1: Vec<G1> = vector_lift_g1(&c0_field, &qanizk.group);

    let pi = qanizk.prove(&crs, &tag, &c0_g1, &r);
    let is_valid = qanizk.verify(&crs, &tag, &c0_g1, &pi);
    assert!(is_valid);
}

#[test]
fn qanizk_fail() {
    let k = 2;
    let lambda = 128;
    let qanizk = QANIZK::new(k, lambda);
    let m_matrix = random_matrix(3 * k, k);
    let m_g1_matrix: Matrix<G1> = matrix_lift_g1(&m_matrix, &qanizk.group);
    let (crs, _) = qanizk.gen_crs(&m_g1_matrix);

    let tag = generate_random_message_128();
    let r = random_vector(k);
    let c0_field = matrix_vector_mul(&m_matrix, &r);
    let c0_g1: Vec<G1> = vector_lift_g1(&c0_field, &qanizk.group);
    let pi = qanizk.prove(&crs, &tag, &c0_g1, &r);

    let mut other_tag = tag.clone();
    other_tag[0] ^= 1;
    assert!(!qanizk.verify(&crs, &other_tag, &c0_g1, &pi));
}

#[test]
fn qanizk_rejects_a_vector_outside_the_column_space() {
    let k = 2;
    let qanizk = QANIZK::new(k, 64);
    let m_matrix = random_matrix(3 * k, k);
    let m_g1_matrix: Matrix<G1> = matrix_lift_g1(&m_matrix, &qanizk.group);
    let (crs, _) = qanizk.gen_crs(&m_g1_matrix);

    let tag = b"context".to_vec();
    let r = random_vector(k);
    let c0_field = matrix_vector_mul(&m_matrix, &r);
    let c0_g1: Vec<G1> = vector_lift_g1(&c0_field, &qanizk.group);
    let pi = qanizk.prove(&crs, &tag, &c0_g1, &r);
    assert!(qanizk.verify(&crs, &tag, &c0_g1, &pi));

    let random_c0: Vec<G1> = vector_lift_g1(&random_vector(3 * k), &qanizk.group);
    assert!(!qanizk.verify(&crs, &tag, &random_c0, &pi));
    let forged = qanizk.prove(&crs, &tag, &random_c0, &r);
    assert!(!qanizk.verify(&crs, &tag, &random_c0, &forged));
}

#[test]
fn qanizk_rejects_a_proof_under_another_reference_string() {
    let k = 2;
    let qanizk = QANIZK::new(k, 32);
    let m_matrix = random_matrix(3 * k, k);
    let m_g1_matrix: Matrix<G1> = matrix_lift_g1(&m_matrix, &qanizk.group);
    let (crs, _) = qanizk.gen_crs(&m_g1_matrix);
    let (other, _) = qanizk.gen_crs(&m_g1_matrix);

    let tag = b"context".to_vec();
    let r = random_vector(k);
    let c0_g1: Vec<G1> = vector_lift_g1(&matrix_vector_mul(&m_matrix, &r), &qanizk.group);
    let pi = qanizk.prove(&crs, &tag, &c0_g1, &r);
    assert!(!qanizk.verify(&other, &tag, &c0_g1, &pi));
}

#[test]
fn qanizk_reference_string_has_the_configured_dimensions() {
    let k = 2;
    let lambda = 8;
    let qanizk = QANIZK::new(k, lambda);
    let m_g1_matrix: Matrix<G1> = matrix_lift_g1(&random_matrix(3 * k, k), &qanizk.group);
    let (crs, trapdoor) = qanizk.gen_crs(&m_g1_matrix);
    assert_eq!(crs.a_g2.len(), k + 1);
    assert!(crs.a_g2.iter().all(|row| row.len() == k));
    assert_eq!(crs.ka_g2.len(), 3 * k);
    assert!(crs.ka_g2.iter().all(|row| row.len() == k));
    assert_eq!(crs.b_g1.len(), k);
    assert_eq!(crs.mk_g1.len(), k);
    assert!(crs.mk_g1.iter().all(|row| row.len() == k + 1));
    assert_eq!(crs.kjb_a_g2.len(), lambda);
    assert_eq!(crs.b_kjb_g1.len(), lambda);
    assert!(crs.kjb_a_g2.iter().all(|pair| pair.len() == 2));
    assert!(crs.b_kjb_g1.iter().all(|pair| pair.len() == 2
        && pair.iter().all(|m| m.len() == k && m.iter().all(|row| row.len() == k + 1))));
    assert_eq!(trapdoor.k_matrix.len(), 3 * k);
    assert!(trapdoor.k_matrix.iter().all(|row| row.len() == k + 1));
}

#[test]
fn qanizk_proof_has_the_configured_dimensions_and_is_repeatable() {
    let k = 3;
    let qanizk = QANIZK::new(k, 16);
    let m_matrix = random_matrix(3 * k, k);
    let m_g1_matrix: Matrix<G1> = matrix_lift_g1(&m_matrix, &qanizk.group);
    let (crs, _) = qanizk.gen_crs(&m_g1_matrix);
    let r = random_vector(k);
    let s = random_vector(k);
    let c0_g1: Vec<G1> = vector_lift_g1(&matrix_vector_mul(&m_matrix, &r), &qanizk.group);
    let first = qanizk.prove_with(&crs, b"t", &c0_g1, &r, &s);
    let second = qanizk.prove_with(&crs, b"t", &c0_g1, &r, &s);
    assert_eq!(first.t1_g1.len(), k);
    assert_eq!(first.u1_g1.len(), k + 1);
    assert!(first.t1_g1 == second.t1_g1);
    assert!(first.u1_g1 == second.u1_g1);
    assert!(qanizk.verify(&crs, b"t", &c0_g1, &first));
}

#[test]
fn challenge_input_is_the_tag_then_x_and_y_of_each_point() {
    let qanizk = QANIZK::new(2, 8);
    let c0 = vec![qanizk.group.scalar_mul_p1(field_element(5))];
    let t1 = vec![qanizk.group.scalar_mul_p1(field_element(9))];
    let input = qanizk.hash_tag_c0_t1(b"tag", &c0, &t1);

    let mut expected = b"tag".to_vec();
    for scalar in [5u64, 9] {
        let point = ark_bls12_381::G1Projective::generator() * ark_bls12_381::Fr::from(scalar);
        let affine = point.into_affine();
        expected.extend_from_slice(&affine.x.into_bigint().to_bytes_le());
        expected.extend_from_slice(&affine.y.into_bigint().to_bytes_le());
    }
    assert_eq!(input.len(), 3 + 2 * 96);
    assert_eq!(input, expected);
    assert_ne!(input[3..51], input[51..99]);
}

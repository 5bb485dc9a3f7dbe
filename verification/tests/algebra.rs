use ibe_schemes::field_utils::{
    g1_matrix_field_multiply, group_matrix_vector_mul_msm, inner_product, linear_combination_g1,
    matrix_add_g1, matrix_add_g2, matrix_concat, matrix_lift_g1, matrix_lift_g2,
    matrix_multiply, matrix_multiply_scalar, matrix_transpose, matrix_vector_mul, matrix_zero,
    random_field_element, random_matrix, random_vector, scalar_vector_mul, vector_add,
    vector_add_g1, vector_concat, vector_lift_g1, vector_lift_g2, vector_matrix_mul,
    vector_zero,
};
use ibe_schemes::{field_element, FieldElement, GroupCtx, Matrix, Vector};

fn vector(values: &[u64]) -> Vector {
    values.iter().map(|v| field_element(*v)).collect()
}

fn matrix(rows: &[&[u64]]) -> Matrix<FieldElement> {
    rows.iter().map(|row| vector(row)).collect()
}

#[test]
fn field_elements_compare_by_value() {
    assert!(field_element(3) == field_element(3));
    assert!(field_element(3) != field_element(4));
    assert!(random_field_element() != random_field_element());
}

#[test]
fn vector_operations_on_small_values() {
    assert!(vector_add(&vector(&[1, 2, 3]), &vector(&[10, 20, 30])) == vector(&[11, 22, 33]));
    assert!(vector_add(&vector(&[1, 2, 3]), &vector(&[10])) == vector(&[11]));
    assert!(scalar_vector_mul(field_element(3), &vector(&[1, 2, 0])) == vector(&[3, 6, 0]));
    assert!(inner_product(&vector(&[1, 2, 3]), &vector(&[4, 5, 6])) == field_element(32));
    assert!(vector_concat(&vector(&[1]), &vector(&[2, 3])) == vector(&[1, 2, 3]));
    assert!(vector_zero(3) == vector(&[0, 0, 0]));
    assert!(vector_zero(0).is_empty());
}

#[test]
fn matrix_operations_on_small_values() {
    let a = matrix(&[&[1, 2], &[3, 4], &[5, 6]]);
    let b = matrix(&[&[7, 8, 9], &[10, 11, 12]]);
    assert!(matrix_vector_mul(&a, &vector(&[5, 6])) == vector(&[17, 39, 61]));
    assert!(
        matrix_multiply(&a, &b)
            == matrix(&[&[27, 30, 33], &[61, 68, 75], &[95, 106, 117]])
    );
    assert!(matrix_transpose(&a) == matrix(&[&[1, 3, 5], &[2, 4, 6]]));
    assert!(matrix_concat(&a, &a) == matrix(&[&[1, 2, 1, 2], &[3, 4, 3, 4], &[5, 6, 5, 6]]));
    assert!(vector_matrix_mul(&vector(&[1, 1, 1]), &a) == vector(&[9, 12]));
    assert!(matrix_zero(2, 3) == matrix(&[&[0, 0, 0], &[0, 0, 0]]));
}

#[test]
fn arithmetic_wraps_at_the_modulus() {
    let group = GroupCtx::bls12_381();
    let large = field_element(u64::MAX);
    let square = scalar_vector_mul(large, &vec![large]);
    let fourth = scalar_vector_mul(square[0], &square);
    let eighth = scalar_vector_mul(fourth[0], &fourth);
    let direct = group.scalar_mul_p1(eighth[0]);
    let mut stepwise = group.scalar_mul_p1(field_element(1));
    for _ in 0..8 {
        stepwise = matrix_multiply_scalar(&vec![vec![stepwise]], large)[0][0];
    }
    assert!(direct == stepwise);
    assert!(eighth[0] != field_element(0));
}

#[test]
fn lifting_is_linear() {
    let group = GroupCtx::bls12_381();
    let a = random_vector(3);
    let b = random_vector(3);
    let sum = vector_add(&a, &b);
    assert!(
        vector_lift_g1(&sum, &group)
            == vector_add_g1(&vector_lift_g1(&a, &group), &vector_lift_g1(&b, &group))
    );
    assert!(vector_lift_g1(&a, &group) != vector_lift_g1(&b, &group));
    assert!(vector_lift_g2(&vector(&[1]), &group)[0] == group.g2);
    assert!(vector_lift_g1(&vector(&[1]), &group)[0] == group.g1);
    assert!(vector_lift_g1(&vector(&[2]), &group)[0] != group.g1);
}

#[test]
fn group_matrix_products_agree_with_the_field() {
    let group = GroupCtx::bls12_381();
    let m = random_matrix(4, 3);
    let v = random_vector(3);
    let lifted = matrix_lift_g1(&m, &group);
    let expected = vector_lift_g1(&matrix_vector_mul(&m, &v), &group);
    assert!(group_matrix_vector_mul_msm(&lifted, &v) == expected);
    assert!(linear_combination_g1(&lifted[0], &v) == expected[0]);

    let right = random_matrix(3, 2);
    let product = matrix_lift_g1(&matrix_multiply(&m, &right), &group);
    assert!(g1_matrix_field_multiply(&lifted, &right) == product);

    let doubled = matrix_lift_g1(
        &m.iter().map(|row| vector_add(row, row)).collect::<Matrix<FieldElement>>(),
        &group,
    );
    assert!(matrix_add_g1(&lifted, &lifted) == doubled);
    assert!(matrix_multiply_scalar(&lifted, field_element(2)) == doubled);
    let lifted_g2 = matrix_lift_g2(&m, &group);
    let doubled_g2 = matrix_lift_g2(
        &m.iter().map(|row| vector_add(row, row)).collect::<Matrix<FieldElement>>(),
        &group,
    );
    assert!(matrix_add_g2(&lifted_g2, &lifted_g2) == doubled_g2);
}

#[test]
fn pairing_is_bilinear() {
    let group = GroupCtx::bls12_381();
    let p = group.scalar_mul_p1(field_element(6));
    let q = group.scalar_mul_p2(field_element(7));
    assert!(group.pairing(&p, &q) == group.scalar_expo_gt(field_element(42)));
    assert!(group.pairing(&group.g1, &group.g2) == group.gt);
    assert!(group.pairing(&p, &q) != group.gt);
    let pairs = vec![(p, q), (group.g1, group.g2)];
    assert!(group.multi_pairing(&pairs) == group.scalar_expo_gt(field_element(43)));
    assert!(group.multi_pairing(&pairs[..1]) == group.pairing(&p, &q));
    assert!(group.multi_pairing(&pairs[..0]) == group.scalar_expo_gt(field_element(0)));
}

#[test]
fn identities_of_the_groups() {
    let group = GroupCtx::bls12_381();
    let zero = group.scalar_mul_p1(field_element(0));
    let p = group.scalar_mul_p1(field_element(3));
    assert!(vector_add_g1(&vec![p], &vec![zero]) == vec![p]);
    assert!(group.pairing(&zero, &group.g2) == group.scalar_expo_gt(field_element(0)));
    assert!(group.scalar_expo_gt(field_element(1)) == group.gt);
    assert!(group_matrix_vector_mul_msm(&vec![vec![p, p]], &vector(&[2])) == vec![
        group.scalar_mul_p1(field_element(6))
    ]);
    assert!(group_matrix_vector_mul_msm(&vec![Vec::new()], &vector(&[2])) == vec![zero]);
}

#[test]
fn random_matrices_have_the_asked_shape() {
    let m = random_matrix(3, 5);
    assert_eq!(m.len(), 3);
    assert!(m.iter().all(|row| row.len() == 5));
    assert_eq!(random_vector(7).len(), 7);
    assert!(random_matrix(0, 4).is_empty());
}

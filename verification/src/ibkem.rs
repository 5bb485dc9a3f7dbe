//! The algebra that the two key-encapsulation constructions share: the
//! public matrices of a key pair, the vector of a user key, encapsulation and
//! decapsulation.

use vstd::prelude::*;
use crate::affine_mac::{all_shaped, affine_combination, constant_combination, SecretKey};
use crate::f_functions::{affine_sum, constant_sum, f_i, f_i_spec, f_prime_i, f_prime_i_spec};
use crate::field_utils::{
    add_rows_g1, concat_g2, group_matrix_vector_mul_msm, lemma_concat_scalars, lemma_g1_shape,
    lemma_product_shape, lemma_scale_shape, lemma_transpose_scalars, linear_combination_g1,
    matrix_concat, matrix_lift_g1, matrix_multiply, matrix_transpose, matrix_zero_g1, rows_have,
    scale_rows_g1, vector_concat, vector_lift_g2, vector_matrix_mul, vector_zero, zip_pairs,
};
use crate::group_ctx::GroupCtx;
use crate::math::{
    dot, fadd, fmul, fneg, mat_add, mat_concat, mat_mul, mat_scale, mat_vec, transpose, vec_mat,
    vec_scale, zero_matrix, zeros,
};
use crate::types::{
    g1_cube, g1_rows, g1s, g2s, lemma_pairing_sum_push, pairing_sum, scalar_cube, scalar_rows,
    scalars, FieldElement, GTElement, Matrix, Vector, G1, G2,
};

verus! {

/// The public matrix of one index: the transposes of `y` and `x` side by
/// side, times `m`.
pub open spec fn z_matrix(y: Seq<Seq<nat>>, x: Seq<Seq<nat>>, m: Seq<Seq<nat>>, k: nat) -> Seq<
    Seq<nat>,
> {
    mat_mul(mat_concat(transpose(y, k), transpose(x, k)), m, k)
}

/// The public matrices of all indices, each lifted by `g`.
pub open spec fn lifted_z_matrices(
    g: nat,
    ys: Seq<Seq<Seq<nat>>>,
    xs: Seq<Seq<Seq<nat>>>,
    m: Seq<Seq<nat>>,
    k: nat,
) -> Seq<Seq<Seq<nat>>> {
    Seq::new(ys.len(), |i: int| mat_scale(g, z_matrix(ys[i], xs[i], m, k)))
}

/// The public vectors of the constant terms: `y' ‖ x'` times `m`, for each
/// index.
pub open spec fn z_primes(
    y_primes: Seq<Seq<nat>>,
    x_primes: Seq<Seq<nat>>,
    m: Seq<Seq<nat>>,
    k: nat,
) -> Seq<Seq<nat>> {
    Seq::new(y_primes.len(), |i: int| vec_mat(y_primes[i] + x_primes[i], m, k))
}

/// The vector `V` of a user key whose tag has the vector `t`.
pub open spec fn user_value(
    ys: Seq<Seq<Seq<nat>>>,
    y_primes: Seq<Seq<nat>>,
    k: nat,
    l: nat,
    l_prime: nat,
    identity: Seq<u8>,
    t: Seq<nat>,
) -> Seq<nat> {
    constant_sum(y_primes, l_prime + 1, affine_sum(ys, l, identity, t, l + 1, zeros(k)))
}

/// The sum, over the indices below `n` whose coefficient is not zero, of the
/// coefficient times the matrix of that index, added to `start`.
pub open spec fn matrix_sum(
    zs: Seq<Seq<Seq<nat>>>,
    l: nat,
    identity: Seq<u8>,
    n: nat,
    start: Seq<Seq<nat>>,
) -> Seq<Seq<nat>>
    decreases n,
{
    if n == 0 {
        start
    } else {
        let before = matrix_sum(zs, l, identity, (n - 1) as nat, start);
        let f = f_i_spec((n - 1) as nat, l, identity);
        if f != 0 {
            mat_add(before, mat_scale(f, zs[n - 1]))
        } else {
            before
        }
    }
}

/// The exponent of the encapsulated key: the sum, over the constant-term
/// indices below `n` whose coefficient is not zero, of the inner product of
/// the public vector with `r`, times the coefficient, times the exponent of
/// the G2 generator.
pub open spec fn key_exponent(z_primes: Seq<Seq<nat>>, r: Seq<nat>, g2: nat, n: nat) -> nat
    decreases n,
{
    if n == 0 {
        0
    } else {
        let before = key_exponent(z_primes, r, g2, (n - 1) as nat);
        let f = f_prime_i_spec((n - 1) as nat);
        if f != 0 {
            fadd(before, fmul(fmul(dot(z_primes[n - 1], r), f), g2))
        } else {
            before
        }
    }
}

/// The exponent of the key that a user key recovers from a ciphertext: the
/// pairings of `c0` with `V ‖ U`, divided by those of `c1` with `T`.
pub open spec fn recovered_exponent(
    c0: Seq<nat>,
    c1: Seq<nat>,
    t: Seq<nat>,
    u: Seq<nat>,
    v: Seq<nat>,
) -> nat {
    fadd(dot(c0, v + u), fneg(dot(c1, t)))
}

/// What decapsulation gives: nothing where one of the two vectors of the
/// ciphertext is empty, the recovered exponent otherwise.
pub open spec fn decapsulation(
    c0: Seq<nat>,
    c1: Seq<nat>,
    t: Seq<nat>,
    u: Seq<nat>,
    v: Seq<nat>,
) -> Option<nat> {
    if c0.len() == 0 || c1.len() == 0 {
        None
    } else {
        Some(recovered_exponent(c0, c1, t, u, v))
    }
}

/// The exponent of an element of the target group, if there is one.
pub open spec fn exponent_of(key: Option<GTElement>) -> Option<nat> {
    match key {
        Some(element) => Some(element@),
        None => None,
    }
}

/// The secret matrices have the dimensions that `(k, l, l_prime)` ask for.
pub open spec fn secrets_fit(
    m: Seq<Vec<FieldElement>>,
    mac_sk: &SecretKey,
    y_matrices: Seq<Matrix<FieldElement>>,
    y_prime_vectors: Seq<Vector>,
    k: nat,
    l: nat,
    l_prime: nat,
) -> bool {
    &&& m.len() == 3 * k
    &&& rows_have(m, k)
    &&& mac_sk.fits(k, l, l_prime)
    &&& y_matrices.len() == l + 1
    &&& all_shaped(y_matrices, k, k)
    &&& y_prime_vectors.len() == l_prime + 1
    &&& rows_have(y_prime_vectors, k)
}

/// The public matrix of one index, lifted into G1.
fn public_matrix(
    group: &GroupCtx,
    k: usize,
    m_matrix: &Matrix<FieldElement>,
    x: &Matrix<FieldElement>,
    y: &Matrix<FieldElement>,
) -> (r: Matrix<G1>)
    requires
        1 <= k,
        3 * k <= usize::MAX,
        m_matrix@.len() == 3 * k,
        rows_have(m_matrix@, k as nat),
        x@.len() == 2 * k,
        rows_have(x@, k as nat),
        y@.len() == k,
        rows_have(y@, k as nat),
    ensures
        g1_rows(r@) == mat_scale(
            group.g1@,
            z_matrix(scalar_rows(y@), scalar_rows(x@), scalar_rows(m_matrix@), k as nat),
        ),
        r@.len() == k,
        rows_have(r@, k as nat),
{
    let y_transposed = matrix_transpose(y);
    let x_transposed = matrix_transpose(x);
    let combined = matrix_concat(&y_transposed, &x_transposed);
    proof {
        lemma_transpose_scalars(y@, y_transposed@, k as nat);
        lemma_transpose_scalars(x@, x_transposed@, k as nat);
        lemma_concat_scalars(y_transposed@, x_transposed@, combined@);
        assert forall|i: int| 0 <= i < combined@.len() implies (#[trigger] combined@[i])@.len()
            == m_matrix@.len() by {
            assert(y_transposed@[i]@.len() == k);
            assert(x_transposed@[i]@.len() == 2 * k);
        }
    }
    let z = matrix_multiply(&combined, m_matrix);
    let lifted = matrix_lift_g1(&z, group);
    proof {
        let product = mat_mul(scalar_rows(combined@), scalar_rows(m_matrix@), k as nat);
        lemma_product_shape(scalar_rows(combined@), scalar_rows(m_matrix@), k as nat);
        lemma_scale_shape(group.g1@, product, k as nat, k as nat);
        lemma_g1_shape(lifted@, k as nat, k as nat);
    }
    lifted
}

/// The public part of a key pair: the matrix `m` and the matrices and
/// vectors derived from the secret ones, all lifted into G1.
pub fn public_part(
    group: &GroupCtx,
    k: usize,
    l: usize,
    l_prime: usize,
    m_matrix: &Matrix<FieldElement>,
    mac_sk: &SecretKey,
    y_matrices: &Vec<Matrix<FieldElement>>,
    y_prime_vectors: &Vec<Vector>,
) -> (r: (Matrix<G1>, Vec<Matrix<G1>>, Matrix<G1>))
    requires
        1 <= k,
        3 * k <= usize::MAX,
        l < usize::MAX,
        l_prime < usize::MAX,
        secrets_fit(
            m_matrix@,
            mac_sk,
            y_matrices@,
            y_prime_vectors@,
            k as nat,
            l as nat,
            l_prime as nat,
        ),
    ensures
        g1_rows(r.0@) == mat_scale(group.g1@, scalar_rows(m_matrix@)),
        g1_cube(r.1@) == lifted_z_matrices(
            group.g1@,
            scalar_cube(y_matrices@),
            scalar_cube(mac_sk.x_matrices@),
            scalar_rows(m_matrix@),
            k as nat,
        ),
        g1_rows(r.2@) == mat_scale(
            group.g1@,
            z_primes(
                scalar_rows(y_prime_vectors@),
                scalar_rows(mac_sk.x_prime@),
                scalar_rows(m_matrix@),
                k as nat,
            ),
        ),
        r.0@.len() == 3 * k,
        rows_have(r.0@, k as nat),
        r.1@.len() == l + 1,
        all_shaped(r.1@, k as nat, k as nat),
        r.2@.len() == l_prime + 1,
        rows_have(r.2@, k as nat),
{
    let mut z_matrices: Vec<Matrix<G1>> = Vec::new();
    let mut i: usize = 0;
    while i <= l
        invariant
            1 <= k,
            3 * k <= usize::MAX,
            l < usize::MAX,
            i <= l + 1,
            secrets_fit(
                m_matrix@,
                mac_sk,
                y_matrices@,
                y_prime_vectors@,
                k as nat,
                l as nat,
                l_prime as nat,
            ),
            z_matrices@.len() == i,
            all_shaped(z_matrices@, k as nat, k as nat),
            forall|t: int|
                0 <= t < i ==> g1_rows((#[trigger] z_matrices@[t])@) == mat_scale(
                    group.g1@,
                    z_matrix(
                        scalar_rows(y_matrices@[t]@),
                        scalar_rows(mac_sk.x_matrices@[t]@),
                        scalar_rows(m_matrix@),
                        k as nat,
                    ),
                ),
        decreases l + 1 - i,
    {
        assert(y_matrices@[i as int]@.len() == k && rows_have(y_matrices@[i as int]@, k as nat));
        assert(mac_sk.x_matrices@[i as int]@.len() == 2 * k && rows_have(
            mac_sk.x_matrices@[i as int]@,
            k as nat,
        ));
        let z = public_matrix(group, k, m_matrix, &mac_sk.x_matrices[i], &y_matrices[i]);
        z_matrices.push(z);
        i += 1;
    }
    let mut z_prime_vectors: Matrix<FieldElement> = Vec::new();
    let mut i: usize = 0;
    while i <= l_prime
        invariant
            1 <= k,
            l_prime < usize::MAX,
            i <= l_prime + 1,
            secrets_fit(
                m_matrix@,
                mac_sk,
                y_matrices@,
                y_prime_vectors@,
                k as nat,
                l as nat,
                l_prime as nat,
            ),
            z_prime_vectors@.len() == i,
            forall|t: int|
                0 <= t < i ==> scalars((#[trigger] z_prime_vectors@[t])@) == vec_mat(
                    scalars(y_prime_vectors@[t]@) + scalars(mac_sk.x_prime@[t]@),
                    scalar_rows(m_matrix@),
                    k as nat,
                ),
        decreases l_prime + 1 - i,
    {
        let combined = vector_concat(&y_prime_vectors[i], &mac_sk.x_prime[i]);
        let z_prime = vector_matrix_mul(&combined, m_matrix);
        z_prime_vectors.push(z_prime);
        i += 1;
    }
    let m_g1 = matrix_lift_g1(m_matrix, group);
    let z_prime_g1 = matrix_lift_g1(&z_prime_vectors, group);
    proof {
        assert(g1_cube(z_matrices@) =~= lifted_z_matrices(
            group.g1@,
            scalar_cube(y_matrices@),
            scalar_cube(mac_sk.x_matrices@),
            scalar_rows(m_matrix@),
            k as nat,
        ));
        assert(scalar_rows(z_prime_vectors@) =~= z_primes(
            scalar_rows(y_prime_vectors@),
            scalar_rows(mac_sk.x_prime@),
            scalar_rows(m_matrix@),
            k as nat,
        ));
        crate::field_utils::lemma_scalar_values_shape(m_matrix@, k as nat);
        lemma_scale_shape(group.g1@, scalar_rows(m_matrix@), (3 * k) as nat, k as nat);
        lemma_g1_shape(m_g1@, (3 * k) as nat, k as nat);
        let lifted = mat_scale(
            group.g1@,
            z_primes(
                scalar_rows(y_prime_vectors@),
                scalar_rows(mac_sk.x_prime@),
                scalar_rows(m_matrix@),
                k as nat,
            ),
        );
        assert forall|i: int| 0 <= i < lifted.len() implies (#[trigger] lifted[i]).len() == k by {}
        lemma_g1_shape(z_prime_g1@, (l_prime + 1) as nat, k as nat);
    }
    (m_g1, z_matrices, z_prime_g1)
}

/// The vector `V` of a user key, lifted into G2.
pub fn user_vector(
    group: &GroupCtx,
    k: usize,
    l: usize,
    l_prime: usize,
    y_matrices: &Vec<Matrix<FieldElement>>,
    y_prime_vectors: &Vec<Vector>,
    identity: &[u8],
    t_field: &Vector,
) -> (r: Vec<G2>)
    requires
        l < usize::MAX,
        l_prime < usize::MAX,
        y_matrices@.len() == l + 1,
        y_prime_vectors@.len() == l_prime + 1,
    ensures
        g2s(r@) == vec_scale(
            group.g2@,
            user_value(
                scalar_cube(y_matrices@),
                scalar_rows(y_prime_vectors@),
                k as nat,
                l as nat,
                l_prime as nat,
                identity@,
                scalars(t_field@),
            ),
        ),
{
    let zero = vector_zero(k);
    let affine = affine_combination(y_matrices, l, identity, t_field, zero);
    let v_field = constant_combination(y_prime_vectors, l_prime, affine);
    vector_lift_g2(&v_field, group)
}

/// The sum of the public matrices that the identity selects.
pub fn selected_matrix(
    z_matrices: &Vec<Matrix<G1>>,
    k: usize,
    l: usize,
    identity: &[u8],
) -> (r: Matrix<G1>)
    requires
        l < usize::MAX,
        z_matrices@.len() == l + 1,
        all_shaped(z_matrices@, z_matrices@[0]@.len(), k as nat),
    ensures
        g1_rows(r@) == matrix_sum(
            g1_cube(z_matrices@),
            l as nat,
            identity@,
            (l + 1) as nat,
            zero_matrix(z_matrices@[0]@.len(), k as nat),
        ),
{
    let n: usize = z_matrices[0].len();
    let mut acc = matrix_zero_g1(n, k);
    assert(g1_rows(acc@).len() == acc@.len());
    let mut i: usize = 0;
    while i <= l
        invariant
            l < usize::MAX,
            i <= l + 1,
            n == z_matrices@[0]@.len(),
            z_matrices@.len() == l + 1,
            all_shaped(z_matrices@, n as nat, k as nat),
            acc@.len() == n,
            g1_rows(acc@) == matrix_sum(
                g1_cube(z_matrices@),
                l as nat,
                identity@,
                i as nat,
                zero_matrix(n as nat, k as nat),
            ),
        decreases l + 1 - i,
    {
        let fi = f_i(i, l, identity);
        if !fi.is_zero() {
            assert(z_matrices@[i as int]@.len() == n);
            let scaled = scale_rows_g1(fi, &z_matrices[i]);
            acc = add_rows_g1(&acc, &scaled);
        }
        i += 1;
    }
    acc
}

/// The encapsulated key for the randomness `r`.
pub fn encapsulated_key(
    group: &GroupCtx,
    l_prime: usize,
    z_prime_vectors: &Matrix<G1>,
    r: &Vector,
) -> (key: GTElement)
    requires
        l_prime < usize::MAX,
        z_prime_vectors@.len() == l_prime + 1,
    ensures
        key@ == key_exponent(
            g1_rows(z_prime_vectors@),
            scalars(r@),
            group.g2@,
            (l_prime + 1) as nat,
        ),
{
    let mut pairing_pairs: Vec<(G1, G2)> = Vec::new();
    let mut i: usize = 0;
    while i <= l_prime
        invariant
            l_prime < usize::MAX,
            i <= l_prime + 1,
            z_prime_vectors@.len() == l_prime + 1,
            pairing_sum(pairing_pairs@, pairing_pairs@.len()) == key_exponent(
                g1_rows(z_prime_vectors@),
                scalars(r@),
                group.g2@,
                i as nat,
            ),
        decreases l_prime + 1 - i,
    {
        let fi_prime = f_prime_i(i);
        if !fi_prime.is_zero() {
            let zi_prime_dot_r = linear_combination_g1(&z_prime_vectors[i], r);
            let scaling = zi_prime_dot_r.times(&fi_prime);
            proof {
                lemma_pairing_sum_push(pairing_pairs@, (scaling, group.g2));
            }
            pairing_pairs.push((scaling, group.g2));
        }
        i += 1;
    }
    if pairing_pairs.len() == 0 {
        GTElement::one()
    } else {
        group.multi_pairing(pairing_pairs.as_slice())
    }
}

/// The two vectors of a ciphertext and the key that it encapsulates, for the
/// randomness `r`.
pub fn encapsulate(
    group: &GroupCtx,
    k: usize,
    l: usize,
    l_prime: usize,
    m_matrix: &Matrix<G1>,
    z_matrices: &Vec<Matrix<G1>>,
    z_prime_vectors: &Matrix<G1>,
    identity: &[u8],
    r: &Vector,
) -> (out: (Vec<G1>, Vec<G1>, GTElement))
    requires
        l < usize::MAX,
        l_prime < usize::MAX,
        z_matrices@.len() == l + 1,
        all_shaped(z_matrices@, z_matrices@[0]@.len(), k as nat),
        z_prime_vectors@.len() == l_prime + 1,
    ensures
        is_encapsulation(
            group.g2@,
            k as nat,
            l as nat,
            l_prime as nat,
            g1_rows(m_matrix@),
            g1_cube(z_matrices@),
            g1_rows(z_prime_vectors@),
            identity@,
            scalars(r@),
            g1s(out.0@),
            g1s(out.1@),
            out.2@,
        ),
{
    let c0_g1 = group_matrix_vector_mul_msm(m_matrix, r);
    let z_i_sum = selected_matrix(z_matrices, k, l, identity);
    let c1_g1 = group_matrix_vector_mul_msm(&z_i_sum, r);
    let k_gt = encapsulated_key(group, l_prime, z_prime_vectors, r);
    assert(g1_cube(z_matrices@)[0].len() == z_matrices@[0]@.len());
    (c0_g1, c1_g1, k_gt)
}

/// `c0`, `c1` and `key` are the ciphertext and the key that the randomness
/// `r` gives for the identity under the public matrices.
pub open spec fn is_encapsulation(
    g2: nat,
    k: nat,
    l: nat,
    l_prime: nat,
    m: Seq<Seq<nat>>,
    zs: Seq<Seq<Seq<nat>>>,
    z_primes: Seq<Seq<nat>>,
    identity: Seq<u8>,
    r: Seq<nat>,
    c0: Seq<nat>,
    c1: Seq<nat>,
    key: nat,
) -> bool {
    &&& c0 == mat_vec(m, r)
    &&& c1 == mat_vec(matrix_sum(zs, l, identity, l + 1, zero_matrix(zs[0].len(), k)), r)
    &&& key == key_exponent(z_primes, r, g2, l_prime + 1)
}

/// The key that a user key recovers from the two vectors of a ciphertext,
/// or nothing where one of them is empty.
pub fn decapsulate(
    group: &GroupCtx,
    t_g2: &Vec<G2>,
    u_g2: &Vec<G2>,
    v_g2: &Vec<G2>,
    c0_g1: &Vec<G1>,
    c1_g1: &Vec<G1>,
) -> (r: Option<GTElement>)
    requires
        v_g2@.len() + u_g2@.len() <= usize::MAX,
        c0_g1@.len() == 0 || c1_g1@.len() == 0 || (c0_g1@.len() <= v_g2@.len() + u_g2@.len()
            && c1_g1@.len() <= t_g2@.len()),
    ensures
        exponent_of(r) == decapsulation(
            g1s(c0_g1@),
            g1s(c1_g1@),
            g2s(t_g2@),
            g2s(u_g2@),
            g2s(v_g2@),
        ),
{
    if c0_g1.len() == 0 || c1_g1.len() == 0 {
        return None;
    }
    let w_g2 = concat_g2(v_g2, u_g2);
    let first_term = zip_pairs(c0_g1, &w_g2);
    let second_term = zip_pairs(c1_g1, t_g2);
    let result1 = group.multi_pairing(first_term.as_slice());
    let result2 = group.multi_pairing(second_term.as_slice());
    match result2.inverse() {
        Some(inverse) => Some(result1.times(&inverse)),
        None => None,
    }
}

} // verus!

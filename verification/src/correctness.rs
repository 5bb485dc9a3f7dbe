//! Why a user key opens a ciphertext made for its identity: the terms that
//! depend on the identity cancel, and the encapsulated key is left.

use vstd::prelude::*;
use crate::algebra::{
    column_dots, lemma_add_cancel, lemma_dot_axpy, lemma_dot_commutes, lemma_dot_congruent,
    lemma_dot_zero, lemma_exchange, lemma_fadd_associates, lemma_fadd_zero,
    lemma_fmul_commutes, lemma_vec_mat_dot, row_dots,
};
use crate::affine_mac::{all_shaped, mac_value, SecretKey};
use crate::f_functions::{
    affine_sum, constant_sum, f_i_spec, f_prime_i_spec, lemma_mac_canonical,
};
use crate::field_utils::{lemma_scalar_values_shape, rows_have};
use crate::ibkem::{
    is_encapsulation, key_exponent, lifted_z_matrices, matrix_sum, recovered_exponent,
    secrets_fit, user_value, z_matrix, z_primes,
};
use crate::types::{lemma_scalars_canonical, scalar_cube, scalar_rows, FieldElement, Matrix, Vector};
use crate::math::{
    canonical, column, dot, fadd, fmul, has_shape, lemma_dot_bound, lemma_field_bound,
    lemma_mat_scale_one, lemma_mat_vec_canonical, lemma_modulus_large, lemma_mul_one,
    lemma_scale_one, mat_add, mat_concat, mat_mul, mat_scale, mat_vec, scalar_modulus, shorter,
    transpose, vec_add, vec_mat, vec_scale, zero_matrix, zeros,
};

verus! {

/// Every matrix of the list has `rows` rows of `cols` entries.
pub open spec fn all_have_shape(ms: Seq<Seq<Seq<nat>>>, rows: nat, cols: nat) -> bool {
    forall|i: int| 0 <= i < ms.len() ==> has_shape(#[trigger] ms[i], rows, cols)
}

/// The public matrices of all indices.
pub open spec fn z_matrices(
    ys: Seq<Seq<Seq<nat>>>,
    xs: Seq<Seq<Seq<nat>>>,
    m: Seq<Seq<nat>>,
    k: nat,
) -> Seq<Seq<Seq<nat>>> {
    Seq::new(ys.len(), |i: int| z_matrix(ys[i], xs[i], m, k))
}

/// The public matrix of one index, applied to `r` and paired with `t`, is
/// `M·r` paired with `Y·t ‖ X·t`.
pub proof fn lemma_z_matrix_pairing(
    y: Seq<Seq<nat>>,
    x: Seq<Seq<nat>>,
    m: Seq<Seq<nat>>,
    r: Seq<nat>,
    t: Seq<nat>,
    k: nat,
)
    requires
        has_shape(y, k, k),
        has_shape(x, 2 * k, k),
        has_shape(m, 3 * k, k),
        r.len() == k,
        t.len() == k,
    ensures
        dot(mat_vec(z_matrix(y, x, m, k), r), t) == dot(
            mat_vec(m, r),
            mat_vec(y, t) + mat_vec(x, t),
        ),
        has_shape(z_matrix(y, x, m, k), k, k),
{
    let c = mat_concat(transpose(y, k), transpose(x, k));
    let z = z_matrix(y, x, m, k);
    let w = mat_vec(m, r);
    let zr = mat_vec(z, r);
    let stacked = mat_vec(y, t) + mat_vec(x, t);
    assert forall|a: int| 0 <= a < k implies (#[trigger] c[a]).len() == 3 * k by {}
    assert forall|a: int| 0 <= a < k implies (#[trigger] z[a]).len() == k by {}
    assert forall|a: int| 0 <= a < k implies zr[a] == row_dots(c, w, k, 3 * k)[a] by {
        assert(c[a].len() == 3 * k);
        lemma_vec_mat_dot(c[a], m, r, 3 * k, k);
        assert(z[a] == vec_mat(c[a], m, k));
    }
    lemma_dot_congruent(zr, row_dots(c, w, k, 3 * k), t, t, k);
    lemma_exchange(c, w, t, k, 3 * k);
    assert forall|b: int| 0 <= b < 3 * k implies column_dots(c, t, k, 3 * k)[b] == stacked[b] by {
        if b < k {
            assert(y[b].len() == k);
            assert forall|a: int| 0 <= a < k implies column(c, b)[a] == y[b][a] by {
                assert(c[a] == transpose(y, k)[a] + transpose(x, k)[a]);
                assert(transpose(y, k)[a] == column(y, a));
                assert(column(y, a)[b] == y[b][a]);
            }
            lemma_dot_congruent(column(c, b), y[b], t, t, k);
        } else {
            assert(x[b - k].len() == k);
            assert forall|a: int| 0 <= a < k implies column(c, b)[a] == x[b - k][a] by {
                assert(c[a] == transpose(y, k)[a] + transpose(x, k)[a]);
                assert(transpose(x, k)[a] == column(x, a));
                assert(column(x, a)[b - k] == x[b - k][a]);
            }
            lemma_dot_congruent(column(c, b), x[b - k], t, t, k);
        }
    }
    lemma_dot_congruent(w, w, column_dots(c, t, k, 3 * k), stacked, 3 * k);
}

/// The sum of the public matrices that an identity selects has `k` rows and
/// `k` columns, and the two sums of a user key have `k` and `2k` entries.
pub proof fn lemma_sum_shapes(
    ys: Seq<Seq<Seq<nat>>>,
    xs: Seq<Seq<Seq<nat>>>,
    m: Seq<Seq<nat>>,
    l: nat,
    identity: Seq<u8>,
    t: Seq<nat>,
    k: nat,
    n: nat,
)
    requires
        n <= ys.len(),
        ys.len() == xs.len(),
        all_have_shape(ys, k, k),
        all_have_shape(xs, 2 * k, k),
    ensures
        has_shape(matrix_sum(z_matrices(ys, xs, m, k), l, identity, n, zero_matrix(k, k)), k, k),
        affine_sum(ys, l, identity, t, n, zeros(k)).len() == k,
        affine_sum(xs, l, identity, t, n, zeros(2 * k)).len() == 2 * k,
    decreases n,
{
    let zs = z_matrices(ys, xs, m, k);
    if n == 0 {
        assert forall|i: int| 0 <= i < k implies (#[trigger] zero_matrix(k, k)[i]).len() == k by {}
    } else {
        let h = (n - 1) as nat;
        lemma_sum_shapes(ys, xs, m, l, identity, t, k, h);
        let before = matrix_sum(zs, l, identity, h, zero_matrix(k, k));
        let f = f_i_spec(h, l, identity);
        assert(has_shape(ys[h as int], k, k));
        assert(has_shape(xs[h as int], 2 * k, k));
        if f != 0 {
            let z = zs[h as int];
            let after = mat_add(before, mat_scale(f, z));
            assert forall|i: int| 0 <= i < k implies (#[trigger] after[i]).len() == k by {
                assert(before[i].len() == k);
                assert(z[i].len() == k);
                assert(mat_scale(f, z)[i].len() == k);
            }
        }
    }
}

/// The sum of the public matrices that an identity selects, applied to `r`
/// and paired with `t`, is `M·r` paired with the two sums of a user key,
/// one after the other.
pub proof fn lemma_selected_pairing(
    ys: Seq<Seq<Seq<nat>>>,
    xs: Seq<Seq<Seq<nat>>>,
    m: Seq<Seq<nat>>,
    l: nat,
    identity: Seq<u8>,
    r: Seq<nat>,
    t: Seq<nat>,
    k: nat,
    n: nat,
)
    requires
        n <= ys.len(),
        ys.len() == xs.len(),
        all_have_shape(ys, k, k),
        all_have_shape(xs, 2 * k, k),
        has_shape(m, 3 * k, k),
        r.len() == k,
        t.len() == k,
    ensures
        dot(
            mat_vec(matrix_sum(z_matrices(ys, xs, m, k), l, identity, n, zero_matrix(k, k)), r),
            t,
        ) == dot(
            mat_vec(m, r),
            affine_sum(ys, l, identity, t, n, zeros(k)) + affine_sum(
                xs,
                l,
                identity,
                t,
                n,
                zeros(2 * k),
            ),
        ),
    decreases n,
{
    let zs = z_matrices(ys, xs, m, k);
    let w = mat_vec(m, r);
    lemma_sum_shapes(ys, xs, m, l, identity, t, k, n);
    lemma_modulus_large();
    if n == 0 {
        let zero = zero_matrix(k, k);
        let zr = mat_vec(zero, r);
        assert forall|a: int| 0 <= a < k implies zr[a] == 0 by {
            lemma_dot_zero(r, zero[a], k);
            lemma_dot_commutes(zero[a], r, k);
        }
        lemma_dot_zero(t, zr, k);
        lemma_dot_commutes(zr, t, k);
        lemma_dot_zero(w, zeros(k) + zeros(2 * k), 3 * k);
    } else {
        let h = (n - 1) as nat;
        lemma_selected_pairing(ys, xs, m, l, identity, r, t, k, h);
        lemma_sum_shapes(ys, xs, m, l, identity, t, k, h);
        let f = f_i_spec(h, l, identity);
        if f != 0 {
            let y = ys[h as int];
            let x = xs[h as int];
            let z = zs[h as int];
            assert(has_shape(y, k, k));
            assert(has_shape(x, 2 * k, k));
            lemma_z_matrix_pairing(y, x, m, r, t, k);
            let before = matrix_sum(zs, l, identity, h, zero_matrix(k, k));
            let after = matrix_sum(zs, l, identity, n, zero_matrix(k, k));
            let br = mat_vec(before, r);
            let zr = mat_vec(z, r);
            let ar = mat_vec(after, r);
            assert forall|a: int| 0 <= a < k implies ar[a] == fadd(br[a], fmul(f, zr[a])) by {
                assert(before[a].len() == k);
                assert(z[a].len() == k);
                assert(after[a] == vec_add(before[a], vec_scale(f, z[a])));
                lemma_dot_axpy(r, before[a], f, z[a], after[a], k);
                lemma_dot_commutes(after[a], r, k);
                lemma_dot_commutes(before[a], r, k);
                lemma_dot_commutes(z[a], r, k);
            }
            lemma_dot_axpy(t, br, f, zr, ar, k);
            lemma_dot_commutes(ar, t, k);
            lemma_dot_commutes(br, t, k);
            lemma_dot_commutes(zr, t, k);
            let v0 = affine_sum(ys, l, identity, t, h, zeros(k));
            let u0 = affine_sum(xs, l, identity, t, h, zeros(2 * k));
            let v1 = affine_sum(ys, l, identity, t, n, zeros(k));
            let u1 = affine_sum(xs, l, identity, t, n, zeros(2 * k));
            let yt = mat_vec(y, t);
            let xt = mat_vec(x, t);
            assert(v1 == vec_add(v0, vec_scale(f, yt)));
            assert(u1 == vec_add(u0, vec_scale(f, xt)));
            assert forall|b: int| 0 <= b < 3 * k implies (v1 + u1)[b] == fadd(
                (v0 + u0)[b],
                fmul(f, (yt + xt)[b]),
            ) by {}
            lemma_dot_axpy(w, v0 + u0, f, yt + xt, v1 + u1, 3 * k);
        }
    }
}

/// The exponent of an encapsulated key is below the modulus.
pub proof fn lemma_key_bound(z_primes: Seq<Seq<nat>>, r: Seq<nat>, g2: nat, n: nat)
    ensures
        key_exponent(z_primes, r, g2, n) < scalar_modulus(),
    decreases n,
{
    lemma_modulus_large();
    if n > 0 {
        lemma_key_bound(z_primes, r, g2, (n - 1) as nat);
        let f = f_prime_i_spec((n - 1) as nat);
        lemma_field_bound(
            key_exponent(z_primes, r, g2, (n - 1) as nat),
            fmul(fmul(dot(z_primes[n - 1], r), f), g2),
        );
    }
}

/// The constant sums of a user key keep the lengths of what they start from.
pub proof fn lemma_constant_shapes(vectors: Seq<Seq<nat>>, n: nat, start: Seq<nat>, width: nat)
    requires
        n <= vectors.len(),
        has_shape(vectors, vectors.len(), width),
        start.len() == width,
    ensures
        constant_sum(vectors, n, start).len() == width,
    decreases n,
{
    if n > 0 {
        lemma_constant_shapes(vectors, (n - 1) as nat, start, width);
        assert(vectors[n - 1].len() == width);
    }
}

/// `M·r` paired with the two vectors of a user key, constant terms
/// included, is `M·r` paired with them without the constant terms, times
/// the encapsulated key.
pub proof fn lemma_constant_pairing(
    y_primes: Seq<Seq<nat>>,
    x_primes: Seq<Seq<nat>>,
    m: Seq<Seq<nat>>,
    r: Seq<nat>,
    v: Seq<nat>,
    u: Seq<nat>,
    k: nat,
    n: nat,
)
    requires
        n <= y_primes.len(),
        y_primes.len() == x_primes.len(),
        has_shape(y_primes, y_primes.len(), k),
        has_shape(x_primes, x_primes.len(), 2 * k),
        has_shape(m, 3 * k, k),
        r.len() == k,
        v.len() == k,
        u.len() == 2 * k,
    ensures
        dot(mat_vec(m, r), constant_sum(y_primes, n, v) + constant_sum(x_primes, n, u)) == fadd(
            dot(mat_vec(m, r), v + u),
            key_exponent(crate::ibkem::z_primes(y_primes, x_primes, m, k), r, 1, n),
        ),
    decreases n,
{
    let w = mat_vec(m, r);
    let zp = crate::ibkem::z_primes(y_primes, x_primes, m, k);
    lemma_modulus_large();
    if n == 0 {
        lemma_dot_bound(w, v + u, 3 * k);
        lemma_fadd_zero(dot(w, v + u));
    } else {
        let h = (n - 1) as nat;
        lemma_constant_pairing(y_primes, x_primes, m, r, v, u, k, h);
        lemma_constant_shapes(y_primes, h, v, k);
        lemma_constant_shapes(x_primes, h, u, 2 * k);
        lemma_constant_shapes(y_primes, n, v, k);
        lemma_constant_shapes(x_primes, n, u, 2 * k);
        let f = f_prime_i_spec(h);
        if f != 0 {
            let v0 = constant_sum(y_primes, h, v);
            let u0 = constant_sum(x_primes, h, u);
            let v1 = constant_sum(y_primes, n, v);
            let u1 = constant_sum(x_primes, n, u);
            let yp = y_primes[h as int];
            let xp = x_primes[h as int];
            assert(yp.len() == k);
            assert(xp.len() == 2 * k);
            let c = yp + xp;
            assert(v1 == vec_add(v0, vec_scale(f, yp)));
            assert(u1 == vec_add(u0, vec_scale(f, xp)));
            assert forall|b: int| 0 <= b < 3 * k implies (v1 + u1)[b] == fadd(
                (v0 + u0)[b],
                fmul(f, c[b]),
            ) by {}
            lemma_dot_axpy(w, v0 + u0, f, c, v1 + u1, 3 * k);
            lemma_vec_mat_dot(c, m, r, 3 * k, k);
            lemma_dot_commutes(c, w, 3 * k);
            let d = dot(w, c);
            assert(zp[h as int] == vec_mat(c, m, k));
            assert(dot(zp[h as int], r) == d);
            lemma_fmul_commutes(d, f);
            lemma_field_bound(d, f);
            lemma_mul_one(fmul(d, f));
            lemma_fadd_associates(
                dot(w, v + u),
                key_exponent(zp, r, 1, h),
                fmul(f, d),
            );
        }
    }
}

/// What a user key recovers from a ciphertext made for its identity is the
/// encapsulated key: with `t` the vector of the tag of the user key and `r`
/// the randomness of the ciphertext, the pairings of `M·r` with `V ‖ U`,
/// divided by those of the selected matrices times `r` with `t`, leave the
/// key that the constant terms give.
pub proof fn lemma_terms_cancel(
    ys: Seq<Seq<Seq<nat>>>,
    xs: Seq<Seq<Seq<nat>>>,
    y_primes: Seq<Seq<nat>>,
    x_primes: Seq<Seq<nat>>,
    m: Seq<Seq<nat>>,
    l: nat,
    l_prime: nat,
    identity: Seq<u8>,
    r: Seq<nat>,
    t: Seq<nat>,
    k: nat,
)
    requires
        ys.len() == l + 1,
        xs.len() == l + 1,
        y_primes.len() == l_prime + 1,
        x_primes.len() == l_prime + 1,
        all_have_shape(ys, k, k),
        all_have_shape(xs, 2 * k, k),
        has_shape(y_primes, l_prime + 1, k),
        has_shape(x_primes, l_prime + 1, 2 * k),
        has_shape(m, 3 * k, k),
        r.len() == k,
        t.len() == k,
    ensures
        crate::ibkem::recovered_exponent(
            mat_vec(m, r),
            mat_vec(
                matrix_sum(z_matrices(ys, xs, m, k), l, identity, l + 1, zero_matrix(k, k)),
                r,
            ),
            t,
            crate::affine_mac::mac_value(xs, x_primes, k, l, l_prime, identity, t),
            crate::ibkem::user_value(ys, y_primes, k, l, l_prime, identity, t),
        ) == key_exponent(
            crate::ibkem::z_primes(y_primes, x_primes, m, k),
            r,
            1,
            l_prime + 1,
        ),
{
    let v = affine_sum(ys, l, identity, t, l + 1, zeros(k));
    let u = affine_sum(xs, l, identity, t, l + 1, zeros(2 * k));
    lemma_sum_shapes(ys, xs, m, l, identity, t, k, l + 1);
    lemma_selected_pairing(ys, xs, m, l, identity, r, t, k, l + 1);
    lemma_constant_pairing(y_primes, x_primes, m, r, v, u, k, l_prime + 1);
    let zp = crate::ibkem::z_primes(y_primes, x_primes, m, k);
    lemma_key_bound(zp, r, 1, l_prime + 1);
    let paired = dot(
        mat_vec(matrix_sum(z_matrices(ys, xs, m, k), l, identity, l + 1, zero_matrix(k, k)), r),
        t,
    );
    lemma_add_cancel(paired, key_exponent(zp, r, 1, l_prime + 1));
}

/// The values of a list of matrices of field elements have its shapes.
pub proof fn lemma_cube_shapes(ms: Seq<Matrix<FieldElement>>, rows: nat, cols: nat)
    requires
        all_shaped(ms, rows, cols),
    ensures
        all_have_shape(scalar_cube(ms), rows, cols),
{
    assert forall|i: int| 0 <= i < ms.len() implies has_shape(
        #[trigger] scalar_cube(ms)[i],
        rows,
        cols,
    ) by {
        assert(ms[i]@.len() == rows && rows_have(ms[i]@, cols));
        lemma_scalar_values_shape(ms[i]@, cols);
    }
}

/// The values of a matrix of field elements are unchanged by a lift with
/// the standard generator.
pub proof fn lemma_lift_values(m: Seq<Vec<FieldElement>>)
    ensures
        mat_scale(1, scalar_rows(m)) == scalar_rows(m),
{
    assert forall|i: int| 0 <= i < m.len() implies canonical(#[trigger] scalar_rows(m)[i]) by {
        lemma_scalars_canonical(m[i]@);
    }
    lemma_mat_scale_one(scalar_rows(m));
}

/// The entries of a vector times a matrix are below the modulus.
pub proof fn lemma_vec_mat_canonical(v: Seq<nat>, m: Seq<Seq<nat>>, cols: nat)
    ensures
        canonical(vec_mat(v, m, cols)),
{
    assert forall|j: int| 0 <= j < cols implies (#[trigger] vec_mat(v, m, cols)[j])
        < scalar_modulus() by {
        lemma_dot_bound(v, column(m, j), shorter(v.len(), column(m, j).len()));
    }
}

/// A product of matrices is unchanged by a lift with the standard
/// generator.
pub proof fn lemma_lift_product(a: Seq<Seq<nat>>, b: Seq<Seq<nat>>, cols: nat)
    ensures
        mat_scale(1, mat_mul(a, b, cols)) == mat_mul(a, b, cols),
{
    let product = mat_mul(a, b, cols);
    assert forall|i: int| 0 <= i < product.len() implies canonical(#[trigger] product[i]) by {
        lemma_vec_mat_canonical(a[i], b, cols);
    }
    lemma_mat_scale_one(product);
}

/// The public matrices and vectors are unchanged by a lift with the
/// standard generator.
pub proof fn lemma_lift_public(
    ys: Seq<Seq<Seq<nat>>>,
    xs: Seq<Seq<Seq<nat>>>,
    y_primes: Seq<Seq<nat>>,
    x_primes: Seq<Seq<nat>>,
    m: Seq<Seq<nat>>,
    k: nat,
)
    ensures
        lifted_z_matrices(1, ys, xs, m, k) == z_matrices(ys, xs, m, k),
        mat_scale(1, z_primes(y_primes, x_primes, m, k)) == z_primes(y_primes, x_primes, m, k),
{
    assert forall|i: int| 0 <= i < ys.len() implies lifted_z_matrices(1, ys, xs, m, k)[i]
        == z_matrices(ys, xs, m, k)[i] by {
        let z = z_matrix(ys[i], xs[i], m, k);
        assert forall|a: int| 0 <= a < z.len() implies canonical(#[trigger] z[a]) by {
            lemma_vec_mat_canonical(
                mat_concat(transpose(ys[i], k), transpose(xs[i], k))[a],
                m,
                k,
            );
        }
        lemma_mat_scale_one(z);
    }
    assert(lifted_z_matrices(1, ys, xs, m, k) =~= z_matrices(ys, xs, m, k));
    let zp = z_primes(y_primes, x_primes, m, k);
    assert forall|i: int| 0 <= i < zp.len() implies canonical(#[trigger] zp[i]) by {
        lemma_vec_mat_canonical(y_primes[i] + x_primes[i], m, k);
    }
    lemma_mat_scale_one(zp);
}

/// A user key opens a ciphertext made for its own identity to the key that
/// the ciphertext encapsulates, whatever the randomness of the two was:
/// with the standard generators, the public part of a key pair, a user key
/// made from the secret part for an identity, and a ciphertext made from
/// the public part for the same identity, what the user key recovers is the
/// encapsulated key. The ciphertext and the user key also have the lengths
/// that decapsulation asks for.
pub proof fn lemma_key_recovered(
    k: nat,
    l: nat,
    l_prime: nat,
    identity: Seq<u8>,
    m: Seq<Vec<FieldElement>>,
    mac_sk: SecretKey,
    y_matrices: Seq<Matrix<FieldElement>>,
    y_prime_vectors: Seq<Vector>,
    pk_m: Seq<Seq<nat>>,
    pk_z: Seq<Seq<Seq<nat>>>,
    pk_z_prime: Seq<Seq<nat>>,
    s: Seq<nat>,
    t_g2: Seq<nat>,
    u_g2: Seq<nat>,
    v_g2: Seq<nat>,
    r: Seq<nat>,
    c0: Seq<nat>,
    c1: Seq<nat>,
    key: nat,
)
    requires
        secrets_fit(m, &mac_sk, y_matrices, y_prime_vectors, k, l, l_prime),
        pk_m == mat_scale(1, scalar_rows(m)),
        pk_z == lifted_z_matrices(
            1,
            scalar_cube(y_matrices),
            scalar_cube(mac_sk.x_matrices@),
            scalar_rows(m),
            k,
        ),
        pk_z_prime == mat_scale(
            1,
            z_primes(
                scalar_rows(y_prime_vectors),
                scalar_rows(mac_sk.x_prime@),
                scalar_rows(m),
                k,
            ),
        ),
        t_g2 == vec_scale(1, mat_vec(scalar_rows(mac_sk.b@), s)),
        u_g2 == vec_scale(
            1,
            mac_value(
                scalar_cube(mac_sk.x_matrices@),
                scalar_rows(mac_sk.x_prime@),
                k,
                l,
                l_prime,
                identity,
                mat_vec(scalar_rows(mac_sk.b@), s),
            ),
        ),
        v_g2 == vec_scale(
            1,
            user_value(
                scalar_cube(y_matrices),
                scalar_rows(y_prime_vectors),
                k,
                l,
                l_prime,
                identity,
                mat_vec(scalar_rows(mac_sk.b@), s),
            ),
        ),
        r.len() == k,
        is_encapsulation(1, k, l, l_prime, pk_m, pk_z, pk_z_prime, identity, r, c0, c1, key),
    ensures
        recovered_exponent(c0, c1, t_g2, u_g2, v_g2) == key,
        c0.len() == 3 * k,
        c1.len() == k,
        t_g2.len() == k,
        u_g2.len() == 2 * k,
        v_g2.len() == k,
{
    lemma_modulus_large();
    let mv = scalar_rows(m);
    let ys = scalar_cube(y_matrices);
    let xs = scalar_cube(mac_sk.x_matrices@);
    let yp = scalar_rows(y_prime_vectors);
    let xp = scalar_rows(mac_sk.x_prime@);
    let t = mat_vec(scalar_rows(mac_sk.b@), s);
    lemma_scalar_values_shape(m, k);
    lemma_cube_shapes(y_matrices, k, k);
    lemma_cube_shapes(mac_sk.x_matrices@, 2 * k, k);
    lemma_scalar_values_shape(y_prime_vectors, k);
    lemma_scalar_values_shape(mac_sk.x_prime@, 2 * k);
    lemma_lift_values(m);
    lemma_lift_public(ys, xs, yp, xp, mv, k);
    lemma_mat_vec_canonical(scalar_rows(mac_sk.b@), s);
    lemma_scale_one(t);
    assert(canonical(zeros(k)));
    assert(canonical(zeros(2 * k)));
    lemma_mac_canonical(xs, xp, l, l_prime, identity, t, zeros(2 * k));
    lemma_mac_canonical(ys, yp, l, l_prime, identity, t, zeros(k));
    let u = mac_value(xs, xp, k, l, l_prime, identity, t);
    let v = user_value(ys, yp, k, l, l_prime, identity, t);
    lemma_scale_one(u);
    lemma_scale_one(v);
    lemma_sum_shapes(ys, xs, mv, l, identity, t, k, l + 1);
    lemma_constant_shapes(yp, l_prime + 1, affine_sum(ys, l, identity, t, l + 1, zeros(k)), k);
    lemma_constant_shapes(
        xp,
        l_prime + 1,
        affine_sum(xs, l, identity, t, l + 1, zeros(2 * k)),
        2 * k,
    );
    assert(has_shape(ys[0], k, k));
    assert(has_shape(xs[0], 2 * k, k));
    lemma_z_matrix_pairing(ys[0], xs[0], mv, r, t, k);
    assert(pk_z[0].len() == k);
    lemma_terms_cancel(ys, xs, yp, xp, mv, l, l_prime, identity, r, t, k);
}

} // verus!

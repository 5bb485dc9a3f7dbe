//! Why a proof made from a witness is accepted: the pairing equation holds
//! for every vector of the column space of the public matrix.

use vstd::prelude::*;
use crate::algebra::{
    column_dots, congruent, lemma_congruent_add, lemma_congruent_mul, lemma_congruent_small,
    lemma_dot_axpy, lemma_dot_commutes, lemma_dot_congruent, lemma_dot_zero, lemma_exchange,
    lemma_fadd_associates, lemma_fadd_congruent, lemma_fadd_zero, lemma_fmul_congruent,
    lemma_vec_mat_dot, row_dots,
};
use crate::math::{
    block_pairing, column, dot, dot_prefix, fadd, fmul, fneg, has_shape, lemma_dot_bound,
    lemma_field_bound, lemma_modulus_large, lemma_mul_one, mat_add, mat_mul, mat_vec, row_pairing,
    scalar_modulus, selected_sum, transpose, vec_add, vec_neg, zero_matrix,
};
use crate::qanizk::verification_exponent;

verus! {

/// A vector of `n` ones.
pub open spec fn ones(n: nat) -> Seq<nat> {
    Seq::new(n, |i: int| 1nat)
}

/// The sum of the entries of each row of a matrix of `cols` columns.
pub open spec fn totals(m: Seq<Seq<nat>>, cols: nat) -> Seq<nat> {
    mat_vec(m, ones(cols))
}

/// `(st + p·S) + p·x = st + p·(S + x·1)` in the field.
pub proof fn lemma_pairing_step(st: nat, p: nat, big_s: nat, x: nat)
    ensures
        fadd(fadd(st, fmul(p, big_s)), fmul(p, x)) == fadd(
            st,
            fmul(p, fadd(big_s, fmul(x, 1))),
        ),
{
    let (sti, pi, si, xi) = (st as int, p as int, big_s as int, x as int);
    lemma_fmul_congruent(p, big_s);
    lemma_fadd_congruent(st, fmul(p, big_s));
    lemma_congruent_add(sti, sti, fmul(p, big_s) as int, pi * si);
    lemma_fmul_congruent(p, x);
    lemma_fadd_congruent(fadd(st, fmul(p, big_s)), fmul(p, x));
    lemma_congruent_add(fadd(st, fmul(p, big_s)) as int, sti + pi * si, fmul(p, x) as int, pi * xi);
    lemma_fmul_congruent(x, 1);
    lemma_fadd_congruent(big_s, fmul(x, 1));
    lemma_congruent_add(si, si, fmul(x, 1) as int, xi * 1);
    lemma_fmul_congruent(p, fadd(big_s, fmul(x, 1)));
    lemma_congruent_mul(pi, pi, fadd(big_s, fmul(x, 1)) as int, si + xi * 1);
    lemma_fadd_congruent(st, fmul(p, fadd(big_s, fmul(x, 1))));
    lemma_congruent_add(
        sti,
        sti,
        fmul(p, fadd(big_s, fmul(x, 1))) as int,
        pi * (si + xi * 1),
    );
    assert((sti + pi * si) + pi * xi == sti + pi * (si + xi * 1)) by (nonlinear_arith);
    lemma_congruent_small(
        fadd(fadd(st, fmul(p, big_s)), fmul(p, x)),
        fadd(st, fmul(p, fadd(big_s, fmul(x, 1)))),
    );
}

/// The pairings of one point with the entries of a row add the point times
/// the sum of the entries.
pub proof fn lemma_row_pairing(p: nat, row: Seq<nat>, n: nat, start: nat)
    requires
        start < scalar_modulus(),
    ensures
        row_pairing(p, row, n, start) == fadd(start, fmul(p, dot_prefix(row, ones(n), n))),
    decreases n,
{
    lemma_modulus_large();
    if n == 0 {
        assert(p * 0 == 0) by (nonlinear_arith);
        vstd::arithmetic::div_mod::lemma_small_mod(0, scalar_modulus());
        lemma_fadd_zero(start);
    } else {
        let h = (n - 1) as nat;
        lemma_row_pairing(p, row, h, start);
        lemma_dot_congruent(row, row, ones(n), ones(h), h);
        lemma_pairing_step(start, p, dot_prefix(row, ones(h), h), row[n - 1]);
    }
}

/// The pairings of points with the rows of a matrix of `cols` columns add
/// the inner product of the points with the sums of the rows.
pub proof fn lemma_block_pairing(points: Seq<nat>, m: Seq<Seq<nat>>, n: nat, cols: nat, start: nat)
    requires
        start < scalar_modulus(),
        n <= m.len(),
        forall|i: int| 0 <= i < n ==> (#[trigger] m[i]).len() == cols,
    ensures
        block_pairing(points, m, n, start) == fadd(
            start,
            dot_prefix(points, totals(m, cols), n),
        ),
    decreases n,
{
    lemma_modulus_large();
    if n == 0 {
        lemma_fadd_zero(start);
    } else {
        let h = (n - 1) as nat;
        lemma_block_pairing(points, m, h, cols, start);
        let before = block_pairing(points, m, h, start);
        lemma_field_bound(start, dot_prefix(points, totals(m, cols), h));
        assert(m[n - 1].len() == cols);
        lemma_row_pairing(points[n - 1], m[n - 1], cols, before);
        assert(totals(m, cols)[n - 1] == dot_prefix(m[n - 1], ones(cols), cols));
        lemma_fadd_associates(
            start,
            dot_prefix(points, totals(m, cols), h),
            fmul(points[n - 1], totals(m, cols)[n - 1]),
        );
    }
}

/// `−P + (−a)·b = −(P + a·b)` in the field.
pub proof fn lemma_negated_step(big_p: nat, a: nat, b: nat)
    ensures
        fadd(fneg(big_p), fmul(fneg(a), b)) == fneg(fadd(big_p, fmul(a, b))),
{
    lemma_modulus_large();
    let (pi, ai, bi) = (big_p as int, a as int, b as int);
    lemma_negation_congruent(big_p);
    lemma_negation_congruent(a);
    lemma_fmul_congruent(fneg(a), b);
    lemma_congruent_mul(fneg(a) as int, -ai, bi, bi);
    lemma_fadd_congruent(fneg(big_p), fmul(fneg(a), b));
    lemma_congruent_add(fneg(big_p) as int, -pi, fmul(fneg(a), b) as int, (-ai) * bi);
    lemma_fmul_congruent(a, b);
    lemma_fadd_congruent(big_p, fmul(a, b));
    lemma_congruent_add(pi, pi, fmul(a, b) as int, ai * bi);
    lemma_negation_congruent(fadd(big_p, fmul(a, b)));
    lemma_congruent_mul(-1, -1, fadd(big_p, fmul(a, b)) as int, pi + ai * bi);
    assert(-1 * (fadd(big_p, fmul(a, b)) as int) == -(fadd(big_p, fmul(a, b)) as int));
    assert(-pi + (-ai) * bi == -1 * (pi + ai * bi)) by (nonlinear_arith);
    lemma_congruent_small(
        fadd(fneg(big_p), fmul(fneg(a), b)),
        fneg(fadd(big_p, fmul(a, b))),
    );
}

/// A negation in the field is congruent to the negated integer, and below
/// the modulus.
pub proof fn lemma_negation_congruent(a: nat)
    ensures
        congruent(fneg(a) as int, -(a as int)),
        fneg(a) < scalar_modulus(),
{
    crate::algebra::lemma_negation_evaluates(a, a as int);
}

/// The inner product with negated points is the negated inner product.
pub proof fn lemma_dot_negated(p: Seq<nat>, q: Seq<nat>, n: nat)
    requires
        n <= p.len(),
    ensures
        dot_prefix(vec_neg(p), q, n) == fneg(dot_prefix(p, q, n)),
    decreases n,
{
    lemma_modulus_large();
    if n == 0 {
        vstd::arithmetic::div_mod::lemma_small_mod(0, scalar_modulus());
        vstd::arithmetic::div_mod::lemma_mod_self_0(scalar_modulus() as int);
    } else {
        let h = (n - 1) as nat;
        lemma_dot_negated(p, q, h);
        lemma_negated_step(dot_prefix(p, q, h), p[n - 1], q[n - 1]);
    }
}

/// A sum of two values, less each of them, is zero.
pub proof fn lemma_all_cancel(xc: nat, xt: nat)
    ensures
        fadd(fadd(fadd(0, fadd(xc, xt)), fneg(xc)), fneg(xt)) == 0,
{
    lemma_modulus_large();
    let (ci, ti) = (xc as int, xt as int);
    lemma_fadd_congruent(xc, xt);
    lemma_fadd_zero(fadd(xc, xt));
    lemma_negation_congruent(xc);
    lemma_negation_congruent(xt);
    lemma_fadd_congruent(fadd(xc, xt), fneg(xc));
    lemma_congruent_add(fadd(xc, xt) as int, ci + ti, fneg(xc) as int, -ci);
    lemma_fadd_congruent(fadd(fadd(xc, xt), fneg(xc)), fneg(xt));
    lemma_congruent_add(
        fadd(fadd(xc, xt), fneg(xc)) as int,
        ci + ti + (-ci),
        fneg(xt) as int,
        -ti,
    );
    assert(ci + ti + (-ci) + (-ti) == 0);
    vstd::arithmetic::div_mod::lemma_small_mod(0, scalar_modulus());
    lemma_congruent_small(fadd(fadd(fadd(xc, xt), fneg(xc)), fneg(xt)), 0);
}

/// A vector that is a matrix, transposed, times `x`, paired with `e`, is
/// `x` paired with the matrix times `e`: `(Aᵗ·x)·e = x·(A·e)`.
pub proof fn lemma_transposed_pairing(a: Seq<Seq<nat>>, x: Seq<nat>, e: Seq<nat>, n: nat, m: nat)
    requires
        has_shape(a, n, m),
        x.len() == n,
        e.len() == m,
    ensures
        dot(mat_vec(transpose(a, m), x), e) == dot(mat_vec(a, e), x),
        mat_vec(transpose(a, m), x).len() == m,
        mat_vec(a, e).len() == n,
{
    let left = mat_vec(transpose(a, m), x);
    let right = mat_vec(a, e);
    lemma_exchange(a, e, x, n, m);
    assert forall|j: int| 0 <= j < m implies column_dots(a, x, n, m)[j] == left[j] by {
        assert(transpose(a, m)[j] == column(a, j));
    }
    assert forall|i: int| 0 <= i < n implies row_dots(a, e, n, m)[i] == right[i] by {
        assert(a[i].len() == m);
    }
    lemma_dot_congruent(e, e, column_dots(a, x, n, m), left, m);
    lemma_dot_congruent(row_dots(a, e, n, m), right, x, x, n);
    lemma_dot_commutes(left, e, m);
}

/// A product of matrices times a vector is the left factor times the right
/// factor times the vector: `(G·H)·e = G·(H·e)`.
pub proof fn lemma_product_applied(
    g: Seq<Seq<nat>>,
    h: Seq<Seq<nat>>,
    e: Seq<nat>,
    rows: nat,
    inner: nat,
    cols: nat,
)
    requires
        has_shape(g, rows, inner),
        has_shape(h, inner, cols),
        e.len() == cols,
    ensures
        mat_vec(mat_mul(g, h, cols), e) == mat_vec(g, mat_vec(h, e)),
{
    let left = mat_vec(mat_mul(g, h, cols), e);
    let right = mat_vec(g, mat_vec(h, e));
    assert forall|i: int| 0 <= i < rows implies left[i] == right[i] by {
        assert(g[i].len() == inner);
        lemma_vec_mat_dot(g[i], h, e, inner, cols);
    }
    assert(left =~= right);
}

/// A sum of two vectors paired with `x` is the sum of the pairings.
pub proof fn lemma_dot_sum(p: Seq<nat>, q: Seq<nat>, sum: Seq<nat>, x: Seq<nat>, n: nat)
    requires
        forall|j: int| 0 <= j < n ==> sum[j] == fadd(p[j], q[j]),
        forall|j: int| 0 <= j < n ==> q[j] < scalar_modulus(),
    ensures
        dot_prefix(sum, x, n) == fadd(dot_prefix(p, x, n), dot_prefix(q, x, n)),
        dot_prefix(x, sum, n) == fadd(dot_prefix(x, p, n), dot_prefix(x, q, n)),
{
    assert forall|j: int| 0 <= j < n implies sum[j] == fadd(p[j], fmul(1, q[j])) by {
        lemma_mul_one(q[j]);
    }
    lemma_dot_axpy(x, p, 1, q, sum, n);
    lemma_dot_bound(x, q, n);
    lemma_mul_one(dot_prefix(x, q, n));
    lemma_dot_commutes(sum, x, n);
    lemma_dot_commutes(p, x, n);
    lemma_dot_commutes(q, x, n);
}

/// The matrices, one pair for each bit of a challenge, that a reference
/// string holds in G1: `Bᵗ·K` for each per-bit matrix `K`.
pub open spec fn left_pairs(b: Seq<Seq<nat>>, kv: Seq<Seq<Seq<Seq<nat>>>>, k: nat) -> Seq<
    Seq<Seq<Seq<nat>>>,
> {
    Seq::new(
        kv.len(),
        |j: int| Seq::new(2, |bit: int| mat_mul(transpose(b, k), kv[j][bit], k + 1)),
    )
}

/// The matrices, one pair for each bit of a challenge, that a reference
/// string holds in G2: `K·A` for each per-bit matrix `K`.
pub open spec fn right_pairs(a: Seq<Seq<nat>>, kv: Seq<Seq<Seq<Seq<nat>>>>, k: nat) -> Seq<
    Seq<Seq<Seq<nat>>>,
> {
    Seq::new(kv.len(), |j: int| Seq::new(2, |bit: int| mat_mul(kv[j][bit], a, k)))
}

/// Every per-bit matrix has `k` rows of `k + 1` entries.
pub open spec fn per_bit_shaped(kv: Seq<Seq<Seq<Seq<nat>>>>, k: nat) -> bool {
    forall|j: int, bit: int|
        0 <= j < kv.len() && 0 <= bit < 2 ==> has_shape(#[trigger] kv[j][bit], k, k + 1)
}

/// The sums that a challenge selects on the two sides of the pairing
/// equation agree: the one in G1, applied to the row sums of `A` and paired
/// with `s`, is `B·s` paired with the row sums of the one in G2.
pub proof fn lemma_selected_agree(
    a: Seq<Seq<nat>>,
    b: Seq<Seq<nat>>,
    kv: Seq<Seq<Seq<Seq<nat>>>>,
    tau: Seq<bool>,
    s: Seq<nat>,
    k: nat,
    n: nat,
)
    requires
        n <= kv.len(),
        has_shape(a, k + 1, k),
        has_shape(b, k, k),
        per_bit_shaped(kv, k),
        s.len() == k,
    ensures
        dot(
            mat_vec(
                selected_sum(left_pairs(b, kv, k), tau, n, zero_matrix(k, k + 1)),
                totals(a, k),
            ),
            s,
        ) == dot(
            mat_vec(b, s),
            totals(selected_sum(right_pairs(a, kv, k), tau, n, zero_matrix(k, k)), k),
        ),
        has_shape(selected_sum(left_pairs(b, kv, k), tau, n, zero_matrix(k, k + 1)), k, k + 1),
        has_shape(selected_sum(right_pairs(a, kv, k), tau, n, zero_matrix(k, k)), k, k),
    decreases n,
{
    lemma_modulus_large();
    let e = totals(a, k);
    let t1 = mat_vec(b, s);
    let left = selected_sum(left_pairs(b, kv, k), tau, n, zero_matrix(k, k + 1));
    let right = selected_sum(right_pairs(a, kv, k), tau, n, zero_matrix(k, k));
    if n == 0 {
        assert forall|i: int| 0 <= i < k implies (#[trigger] left[i]).len() == k + 1 by {}
        assert forall|i: int| 0 <= i < k implies (#[trigger] right[i]).len() == k by {}
        let le = mat_vec(left, e);
        assert forall|i: int| 0 <= i < k implies le[i] == 0 by {
            lemma_dot_zero(e, left[i], k + 1);
            lemma_dot_commutes(left[i], e, k + 1);
        }
        lemma_dot_zero(s, le, k);
        lemma_dot_commutes(le, s, k);
        let rt = totals(right, k);
        assert forall|i: int| 0 <= i < k implies rt[i] == 0 by {
            lemma_dot_zero(ones(k), right[i], k);
            lemma_dot_commutes(right[i], ones(k), k);
        }
        lemma_dot_zero(t1, rt, k);
    } else {
        let h = (n - 1) as nat;
        lemma_selected_agree(a, b, kv, tau, s, k, h);
        let left0 = selected_sum(left_pairs(b, kv, k), tau, h, zero_matrix(k, k + 1));
        let right0 = selected_sum(right_pairs(a, kv, k), tau, h, zero_matrix(k, k));
        let bit = if tau[h as int] { 1int } else { 0int };
        let kj = kv[h as int][bit];
        assert(has_shape(kj, k, k + 1));
        let bt = transpose(b, k);
        assert forall|i: int| 0 <= i < k implies (#[trigger] bt[i]).len() == k by {}
        let g = mat_mul(bt, kj, k + 1);
        let hh = mat_mul(kj, a, k);
        assert(left_pairs(b, kv, k)[h as int][bit] == g);
        assert(right_pairs(a, kv, k)[h as int][bit] == hh);
        assert(left == mat_add(left0, g));
        assert(right == mat_add(right0, hh));
        assert forall|i: int| 0 <= i < k implies (#[trigger] g[i]).len() == k + 1 by {}
        assert forall|i: int| 0 <= i < k implies (#[trigger] hh[i]).len() == k by {}
        assert forall|i: int| 0 <= i < k implies (#[trigger] left[i]).len() == k + 1 by {
            assert(left0[i].len() == k + 1);
            assert(g[i].len() == k + 1);
        }
        assert forall|i: int| 0 <= i < k implies (#[trigger] right[i]).len() == k by {
            assert(right0[i].len() == k);
            assert(hh[i].len() == k);
        }
        // The side in G1.
        let le = mat_vec(left, e);
        let le0 = mat_vec(left0, e);
        let ge = mat_vec(g, e);
        assert forall|i: int| 0 <= i < k implies le[i] == fadd(le0[i], ge[i]) && ge[i]
            < scalar_modulus() by {
            assert(left0[i].len() == k + 1);
            assert(g[i].len() == k + 1);
            assert forall|c: int| 0 <= c < k + 1 implies g[i][c] < scalar_modulus() by {
                lemma_dot_bound(
                    bt[i],
                    column(kj, c),
                    crate::math::shorter(bt[i].len(), column(kj, c).len()),
                );
            }
            lemma_dot_sum(left0[i], g[i], left[i], e, k + 1);
            lemma_dot_bound(g[i], e, k + 1);
        }
        lemma_dot_sum(le0, ge, le, s, k);
        lemma_product_applied(bt, kj, e, k, k, k + 1);
        let kje = mat_vec(kj, e);
        lemma_transposed_pairing(b, kje, s, k, k);
        // The side in G2.
        let rt = totals(right, k);
        let rt0 = totals(right0, k);
        let ht = totals(hh, k);
        assert forall|i: int| 0 <= i < k implies rt[i] == fadd(rt0[i], ht[i]) && ht[i]
            < scalar_modulus() by {
            assert(right0[i].len() == k);
            assert(hh[i].len() == k);
            assert(kj[i].len() == k + 1);
            assert forall|c: int| 0 <= c < k implies hh[i][c] < scalar_modulus() by {
                lemma_dot_bound(
                    kj[i],
                    column(a, c),
                    crate::math::shorter(kj[i].len(), column(a, c).len()),
                );
            }
            lemma_dot_sum(right0[i], hh[i], right[i], ones(k), k);
            lemma_dot_bound(hh[i], ones(k), k);
        }
        lemma_dot_sum(rt0, ht, rt, t1, k);
        lemma_product_applied(kj, a, ones(k), k, k + 1, k);
    }
}

/// A proof made from a witness satisfies the pairing equation: for a
/// public matrix `mg`, a vector `c0 = mg·r`, the matrices `a`, `b`, `kk`
/// and the per-bit matrices `kv` of a reference string, any challenge and
/// any randomness `s`, the proof `t1 = b·s`,
/// `u1 = (mgᵗ·kk)ᵗ·r + (Σ bᵗ·kv)ᵗ·s` has verification exponent zero.
pub proof fn lemma_proof_accepted(
    mg: Seq<Seq<nat>>,
    a: Seq<Seq<nat>>,
    b: Seq<Seq<nat>>,
    kk: Seq<Seq<nat>>,
    kv: Seq<Seq<Seq<Seq<nat>>>>,
    tau: Seq<bool>,
    r: Seq<nat>,
    s: Seq<nat>,
    k: nat,
    n: nat,
    c: nat,
)
    requires
        has_shape(mg, n, c),
        has_shape(a, k + 1, k),
        has_shape(b, k, k),
        has_shape(kk, n, k + 1),
        per_bit_shaped(kv, k),
        r.len() == c,
        s.len() == k,
    ensures
        verification_exponent(
            vec_add(
                mat_vec(transpose(mat_mul(transpose(mg, c), kk, k + 1), k + 1), r),
                mat_vec(
                    transpose(
                        selected_sum(
                            left_pairs(b, kv, k),
                            tau,
                            kv.len(),
                            zero_matrix(k, k + 1),
                        ),
                        k + 1,
                    ),
                    s,
                ),
            ),
            a,
            mat_vec(mg, r),
            mat_mul(kk, a, k),
            mat_vec(b, s),
            selected_sum(right_pairs(a, kv, k), tau, kv.len(), zero_matrix(k, k)),
        ) == 0,
{
    lemma_modulus_large();
    let e = totals(a, k);
    let c0 = mat_vec(mg, r);
    let t1 = mat_vec(b, s);
    let ka = mat_mul(kk, a, k);
    let mt = transpose(mg, c);
    let mk = mat_mul(mt, kk, k + 1);
    let left = selected_sum(left_pairs(b, kv, k), tau, kv.len(), zero_matrix(k, k + 1));
    let right = selected_sum(right_pairs(a, kv, k), tau, kv.len(), zero_matrix(k, k));
    let p = mat_vec(transpose(mk, k + 1), r);
    let q = mat_vec(transpose(left, k + 1), s);
    let u1 = vec_add(p, q);
    lemma_selected_agree(a, b, kv, tau, s, k, kv.len());
    assert forall|i: int| 0 <= i < c implies (#[trigger] mt[i]).len() == n by {}
    assert forall|i: int| 0 <= i < c implies (#[trigger] mk[i]).len() == k + 1 by {}
    assert forall|i: int| 0 <= i < n implies (#[trigger] ka[i]).len() == k by {}
    // The part of the witness: (mkᵗ·r)·e = c0·(kk·e).
    lemma_transposed_pairing(mk, r, e, c, k + 1);
    lemma_product_applied(mt, kk, e, c, n, k + 1);
    let ke = mat_vec(kk, e);
    lemma_transposed_pairing(mg, ke, r, n, c);
    lemma_dot_commutes(c0, ke, n);
    // The part of the randomness: (leftᵗ·s)·e = t1·totals(right).
    lemma_transposed_pairing(left, s, e, k, k + 1);
    // The two parts together.
    assert forall|j: int| 0 <= j < k + 1 implies u1[j] == fadd(p[j], q[j]) && q[j]
        < scalar_modulus() by {
        lemma_dot_bound(
            transpose(left, k + 1)[j],
            s,
            crate::math::shorter(transpose(left, k + 1)[j].len(), s.len()),
        );
    }
    lemma_dot_sum(p, q, u1, e, k + 1);
    // The row sums of kk·a are kk·e.
    lemma_product_applied(kk, a, ones(k), n, k + 1, k);
    // The three blocks of pairings.
    lemma_block_pairing(u1, a, k + 1, k, 0);
    let first = block_pairing(u1, a, k + 1, 0);
    lemma_field_bound(0, dot_prefix(u1, e, k + 1));
    lemma_block_pairing(vec_neg(c0), ka, n, k, first);
    let second = block_pairing(vec_neg(c0), ka, n, first);
    lemma_field_bound(first, dot_prefix(vec_neg(c0), totals(ka, k), n));
    lemma_block_pairing(vec_neg(t1), right, k, k, second);
    lemma_dot_negated(c0, totals(ka, k), n);
    lemma_dot_negated(t1, totals(right, k), k);
    lemma_all_cancel(dot_prefix(c0, ke, n), dot_prefix(t1, totals(right, k), k));
}

} // verus!

//! The laws of arithmetic modulo the group order, and of inner products and
//! matrix products over it, on which the correctness of the schemes rests.

use vstd::prelude::*;
use vstd::arithmetic::div_mod::{
    lemma_add_mod_noop, lemma_mod_twice, lemma_mul_mod_noop, lemma_small_mod,
};
use crate::math::{
    column, dot_prefix, fadd, fmul, fneg, lemma_field_bound, lemma_modulus_large,
    scalar_modulus,
};

verus! {

/// Two integers have the same remainder modulo the group order.
pub open spec fn congruent(a: int, b: int) -> bool {
    a % (scalar_modulus() as int) == b % (scalar_modulus() as int)
}

/// Sums of congruent integers are congruent.
pub proof fn lemma_congruent_add(a: int, a2: int, b: int, b2: int)
    requires
        congruent(a, a2),
        congruent(b, b2),
    ensures
        congruent(a + b, a2 + b2),
{
    lemma_modulus_large();
    lemma_add_mod_noop(a, b, scalar_modulus() as int);
    lemma_add_mod_noop(a2, b2, scalar_modulus() as int);
}

/// Products of congruent integers are congruent.
pub proof fn lemma_congruent_mul(a: int, a2: int, b: int, b2: int)
    requires
        congruent(a, a2),
        congruent(b, b2),
    ensures
        congruent(a * b, a2 * b2),
{
    lemma_modulus_large();
    lemma_mul_mod_noop(a, b, scalar_modulus() as int);
    lemma_mul_mod_noop(a2, b2, scalar_modulus() as int);
}

/// A sum in the field is congruent to the sum of the integers.
pub proof fn lemma_fadd_congruent(a: nat, b: nat)
    ensures
        congruent(fadd(a, b) as int, (a + b) as int),
        fadd(a, b) < scalar_modulus(),
{
    lemma_modulus_large();
    lemma_mod_twice((a + b) as int, scalar_modulus() as int);
    lemma_field_bound(a, b);
}

/// A product in the field is congruent to the product of the integers.
pub proof fn lemma_fmul_congruent(a: nat, b: nat)
    ensures
        congruent(fmul(a, b) as int, (a * b) as int),
        fmul(a, b) < scalar_modulus(),
{
    lemma_modulus_large();
    lemma_mod_twice((a * b) as int, scalar_modulus() as int);
    lemma_field_bound(a, b);
}

/// Congruent values below the modulus are equal.
pub proof fn lemma_congruent_small(a: nat, b: nat)
    requires
        a < scalar_modulus(),
        b < scalar_modulus(),
        congruent(a as int, b as int),
    ensures
        a == b,
{
    lemma_small_mod(a, scalar_modulus());
    lemma_small_mod(b, scalar_modulus());
}

/// A sum in the field of values congruent to two integers is congruent to
/// the sum of the integers.
pub proof fn lemma_sum_evaluates(a: nat, b: nat, ai: int, bi: int)
    requires
        congruent(a as int, ai),
        congruent(b as int, bi),
    ensures
        congruent(fadd(a, b) as int, ai + bi),
        fadd(a, b) < scalar_modulus(),
{
    lemma_fadd_congruent(a, b);
    lemma_congruent_add(a as int, ai, b as int, bi);
}

/// A product in the field of values congruent to two integers is congruent
/// to the product of the integers.
pub proof fn lemma_product_evaluates(a: nat, b: nat, ai: int, bi: int)
    requires
        congruent(a as int, ai),
        congruent(b as int, bi),
    ensures
        congruent(fmul(a, b) as int, ai * bi),
        fmul(a, b) < scalar_modulus(),
{
    lemma_fmul_congruent(a, b);
    lemma_congruent_mul(a as int, ai, b as int, bi);
}

/// A negation in the field of a value congruent to an integer is congruent
/// to the negated integer.
pub proof fn lemma_negation_evaluates(a: nat, ai: int)
    requires
        congruent(a as int, ai),
    ensures
        congruent(fneg(a) as int, -ai),
        fneg(a) < scalar_modulus(),
{
    lemma_modulus_large();
    let m = scalar_modulus() as int;
    let rem = (a as int) % m;
    vstd::arithmetic::div_mod::lemma_mod_bound(a as int, m);
    vstd::arithmetic::div_mod::lemma_mod_bound(m - rem, m);
    lemma_mod_twice(m - rem, m);
    lemma_mod_twice(a as int, m);
    lemma_mod_twice(ai, m);
    assert(congruent(ai, rem));
    lemma_congruent_mul(-1, -1, ai, rem);
    assert(-1 * ai == -ai);
    assert(-1 * rem == -rem);
    vstd::arithmetic::div_mod::lemma_mod_add_multiples_vanish(-rem, m);
    assert(m + (-rem) == m - rem);
}

/// Multiplication in the field is commutative.
pub proof fn lemma_fmul_commutes(a: nat, b: nat)
    ensures
        fmul(a, b) == fmul(b, a),
{
    assert(a * b == b * a) by (nonlinear_arith);
}

/// `x · (p + f·s) = x·p + f·(x·s)` in the field.
pub proof fn lemma_term_axpy(x: nat, p: nat, f: nat, s: nat)
    ensures
        fmul(x, fadd(p, fmul(f, s))) == fadd(fmul(x, p), fmul(f, fmul(x, s))),
{
    let (xi, pi, fi, si) = (x as int, p as int, f as int, s as int);
    lemma_fmul_congruent(f, s);
    lemma_fadd_congruent(p, fmul(f, s));
    lemma_congruent_add(pi, pi, fmul(f, s) as int, fi * si);
    lemma_fmul_congruent(x, fadd(p, fmul(f, s)));
    lemma_congruent_mul(xi, xi, fadd(p, fmul(f, s)) as int, pi + fi * si);
    lemma_fmul_congruent(x, p);
    lemma_fmul_congruent(x, s);
    lemma_fmul_congruent(f, fmul(x, s));
    lemma_congruent_mul(fi, fi, fmul(x, s) as int, xi * si);
    lemma_fadd_congruent(fmul(x, p), fmul(f, fmul(x, s)));
    lemma_congruent_add(fmul(x, p) as int, xi * pi, fmul(f, fmul(x, s)) as int, fi * (xi * si));
    assert(xi * (pi + fi * si) == xi * pi + fi * (xi * si)) by (nonlinear_arith);
    lemma_congruent_small(
        fmul(x, fadd(p, fmul(f, s))),
        fadd(fmul(x, p), fmul(f, fmul(x, s))),
    );
}

/// `(P + f·S) + (u + f·v) = (P + u) + f·(S + v)` in the field.
pub proof fn lemma_sum_axpy(big_p: nat, big_s: nat, u: nat, v: nat, f: nat)
    ensures
        fadd(fadd(big_p, fmul(f, big_s)), fadd(u, fmul(f, v))) == fadd(
            fadd(big_p, u),
            fmul(f, fadd(big_s, v)),
        ),
{
    let (pi, si, ui, vi, fi) = (big_p as int, big_s as int, u as int, v as int, f as int);
    lemma_fmul_congruent(f, big_s);
    lemma_fadd_congruent(big_p, fmul(f, big_s));
    lemma_congruent_add(pi, pi, fmul(f, big_s) as int, fi * si);
    lemma_fmul_congruent(f, v);
    lemma_fadd_congruent(u, fmul(f, v));
    lemma_congruent_add(ui, ui, fmul(f, v) as int, fi * vi);
    lemma_fadd_congruent(fadd(big_p, fmul(f, big_s)), fadd(u, fmul(f, v)));
    lemma_congruent_add(
        fadd(big_p, fmul(f, big_s)) as int,
        pi + fi * si,
        fadd(u, fmul(f, v)) as int,
        ui + fi * vi,
    );
    lemma_fadd_congruent(big_p, u);
    lemma_fadd_congruent(big_s, v);
    lemma_fmul_congruent(f, fadd(big_s, v));
    lemma_congruent_mul(fi, fi, fadd(big_s, v) as int, si + vi);
    lemma_fadd_congruent(fadd(big_p, u), fmul(f, fadd(big_s, v)));
    lemma_congruent_add(
        fadd(big_p, u) as int,
        pi + ui,
        fmul(f, fadd(big_s, v)) as int,
        fi * (si + vi),
    );
    assert((pi + fi * si) + (ui + fi * vi) == (pi + ui) + fi * (si + vi)) by (nonlinear_arith);
    lemma_congruent_small(
        fadd(fadd(big_p, fmul(f, big_s)), fadd(u, fmul(f, v))),
        fadd(fadd(big_p, u), fmul(f, fadd(big_s, v))),
    );
}

/// `P·y + x·(a·y) = (P + a·x)·y` in the field.
pub proof fn lemma_term_factor(big_p: nat, x: nat, a: nat, y: nat)
    ensures
        fadd(fmul(big_p, y), fmul(x, fmul(a, y))) == fmul(fadd(big_p, fmul(a, x)), y),
{
    let (pi, xi, ai, yi) = (big_p as int, x as int, a as int, y as int);
    lemma_fmul_congruent(big_p, y);
    lemma_fmul_congruent(a, y);
    lemma_fmul_congruent(x, fmul(a, y));
    lemma_congruent_mul(xi, xi, fmul(a, y) as int, ai * yi);
    lemma_fadd_congruent(fmul(big_p, y), fmul(x, fmul(a, y)));
    lemma_congruent_add(fmul(big_p, y) as int, pi * yi, fmul(x, fmul(a, y)) as int, xi * (ai * yi));
    lemma_fmul_congruent(a, x);
    lemma_fadd_congruent(big_p, fmul(a, x));
    lemma_congruent_add(pi, pi, fmul(a, x) as int, ai * xi);
    lemma_fmul_congruent(fadd(big_p, fmul(a, x)), y);
    lemma_congruent_mul(fadd(big_p, fmul(a, x)) as int, pi + ai * xi, yi, yi);
    assert(pi * yi + xi * (ai * yi) == (pi + ai * xi) * yi) by (nonlinear_arith);
    lemma_congruent_small(
        fadd(fmul(big_p, y), fmul(x, fmul(a, y))),
        fmul(fadd(big_p, fmul(a, x)), y),
    );
}

/// Adding a value and then its negation gives the value back, where it is
/// below the modulus.
pub proof fn lemma_add_cancel(a: nat, key: nat)
    requires
        key < scalar_modulus(),
    ensures
        fadd(fadd(a, key), fneg(a)) == key,
{
    lemma_modulus_large();
    let m = scalar_modulus() as int;
    let ai = a as int;
    let ki = key as int;
    let rem = ai % m;
    vstd::arithmetic::div_mod::lemma_mod_bound(ai, m);
    lemma_fadd_congruent(a, key);
    lemma_mod_twice(m - rem, m);
    assert(fneg(a) as int == (m - rem) % m);
    assert(congruent(fneg(a) as int, m - rem));
    vstd::arithmetic::div_mod::lemma_mod_bound(m - rem, m);
    lemma_fadd_congruent(fadd(a, key), fneg(a));
    lemma_congruent_add(fadd(a, key) as int, ai + ki, fneg(a) as int, m - rem);
    lemma_mod_twice(ai, m);
    assert(congruent(ai, rem));
    lemma_congruent_add(ai, rem, ki + m - rem, ki + m - rem);
    assert(ai + ki + (m - rem) == ai + (ki + m - rem));
    assert(rem + (ki + m - rem) == ki + m);
    vstd::arithmetic::div_mod::lemma_mod_add_multiples_vanish(ki, m);
    assert(congruent(ki + m, ki));
    lemma_congruent_small(fadd(fadd(a, key), fneg(a)), key);
}

/// Inner products of sequences that agree on the first `n` entries are equal.
pub proof fn lemma_dot_congruent(a: Seq<nat>, a2: Seq<nat>, b: Seq<nat>, b2: Seq<nat>, n: nat)
    requires
        forall|j: int| 0 <= j < n ==> a[j] == a2[j] && b[j] == b2[j],
    ensures
        dot_prefix(a, b, n) == dot_prefix(a2, b2, n),
    decreases n,
{
    if n > 0 {
        lemma_dot_congruent(a, a2, b, b2, (n - 1) as nat);
    }
}

/// The inner product is symmetric.
pub proof fn lemma_dot_commutes(a: Seq<nat>, b: Seq<nat>, n: nat)
    ensures
        dot_prefix(a, b, n) == dot_prefix(b, a, n),
    decreases n,
{
    if n > 0 {
        lemma_dot_commutes(a, b, (n - 1) as nat);
        lemma_fmul_commutes(a[n - 1], b[n - 1]);
    }
}

/// The inner product with zeros is zero.
pub proof fn lemma_dot_zero(x: Seq<nat>, z: Seq<nat>, n: nat)
    requires
        forall|j: int| 0 <= j < n ==> z[j] == 0,
    ensures
        dot_prefix(x, z, n) == 0,
    decreases n,
{
    lemma_modulus_large();
    if n > 0 {
        lemma_dot_zero(x, z, (n - 1) as nat);
        assert(x[n - 1] * 0 == 0) by (nonlinear_arith);
        lemma_small_mod(0, scalar_modulus());
    }
}

/// The inner product is linear in its second argument: where `q = p + f·s`
/// entry by entry, `x·q = x·p + f·(x·s)`.
pub proof fn lemma_dot_axpy(x: Seq<nat>, p: Seq<nat>, f: nat, s: Seq<nat>, q: Seq<nat>, n: nat)
    requires
        forall|j: int| 0 <= j < n ==> q[j] == fadd(p[j], fmul(f, s[j])),
    ensures
        dot_prefix(x, q, n) == fadd(dot_prefix(x, p, n), fmul(f, dot_prefix(x, s, n))),
    decreases n,
{
    lemma_modulus_large();
    if n == 0 {
        assert(f * 0 == 0) by (nonlinear_arith);
        lemma_small_mod(0, scalar_modulus());
    } else {
        let m = (n - 1) as nat;
        lemma_dot_axpy(x, p, f, s, q, m);
        lemma_term_axpy(x[n - 1], p[n - 1], f, s[n - 1]);
        lemma_sum_axpy(
            dot_prefix(x, p, m),
            dot_prefix(x, s, m),
            fmul(x[n - 1], p[n - 1]),
            fmul(x[n - 1], s[n - 1]),
            f,
        );
    }
}

/// Where `s = a·y` entry by entry for a scalar `y`, `x·s = (a·x)·y`.
pub proof fn lemma_dot_factor(x: Seq<nat>, a: Seq<nat>, y: nat, s: Seq<nat>, n: nat)
    requires
        forall|j: int| 0 <= j < n ==> s[j] == fmul(a[j], y),
    ensures
        dot_prefix(x, s, n) == fmul(dot_prefix(a, x, n), y),
    decreases n,
{
    lemma_modulus_large();
    if n == 0 {
        assert(0 * y == 0) by (nonlinear_arith);
        lemma_small_mod(0, scalar_modulus());
    } else {
        let m = (n - 1) as nat;
        lemma_dot_factor(x, a, y, s, m);
        lemma_term_factor(dot_prefix(a, x, m), x[n - 1], a[n - 1], y);
    }
}

/// The inner products of the first `n` rows of a matrix with `x`, over the
/// first `m` columns.
pub open spec fn row_dots(a: Seq<Seq<nat>>, x: Seq<nat>, n: nat, m: nat) -> Seq<nat> {
    Seq::new(n, |i: int| dot_prefix(a[i], x, m))
}

/// The inner products of the first `m` columns of a matrix with `y`, over
/// the first `n` rows.
pub open spec fn column_dots(a: Seq<Seq<nat>>, y: Seq<nat>, n: nat, m: nat) -> Seq<nat> {
    Seq::new(m, |j: int| dot_prefix(column(a, j), y, n))
}

/// Summing a matrix against `x` along its rows and then against `y` gives
/// the same as summing it against `y` along its columns and then against
/// `x`: `(A·x)·y = x·(Aᵗ·y)`.
pub proof fn lemma_exchange(a: Seq<Seq<nat>>, x: Seq<nat>, y: Seq<nat>, n: nat, m: nat)
    requires
        n <= a.len(),
    ensures
        dot_prefix(row_dots(a, x, n, m), y, n) == dot_prefix(x, column_dots(a, y, n, m), m),
    decreases n,
{
    lemma_modulus_large();
    if n == 0 {
        lemma_dot_zero(x, column_dots(a, y, 0, m), m);
    } else {
        let h = (n - 1) as nat;
        lemma_exchange(a, x, y, h, m);
        lemma_dot_congruent(row_dots(a, x, n, m), row_dots(a, x, h, m), y, y, h);
        let before = column_dots(a, y, h, m);
        let step = Seq::new(m, |j: int| fmul(a[n - 1][j], y[n - 1]));
        let after = column_dots(a, y, n, m);
        assert forall|j: int| 0 <= j < m implies after[j] == fadd(before[j], fmul(1, step[j])) by {
            lemma_fmul_congruent(a[n - 1][j], y[n - 1]);
            crate::math::lemma_mul_one(step[j]);
            assert(column(a, j)[n - 1] == a[n - 1][j]);
        }
        lemma_dot_axpy(x, before, 1, step, after, m);
        lemma_dot_factor(x, a[n - 1], y[n - 1], step, m);
        lemma_fmul_congruent(dot_prefix(a[n - 1], x, m), y[n - 1]);
        crate::math::lemma_mul_one(dot_prefix(x, step, m));
    }
}

/// Addition in the field is associative.
pub proof fn lemma_fadd_associates(a: nat, b: nat, c: nat)
    ensures
        fadd(fadd(a, b), c) == fadd(a, fadd(b, c)),
{
    let (ai, bi, ci) = (a as int, b as int, c as int);
    lemma_fadd_congruent(a, b);
    lemma_fadd_congruent(fadd(a, b), c);
    lemma_congruent_add(fadd(a, b) as int, ai + bi, ci, ci);
    lemma_fadd_congruent(b, c);
    lemma_fadd_congruent(a, fadd(b, c));
    lemma_congruent_add(ai, ai, fadd(b, c) as int, bi + ci);
    assert((ai + bi) + ci == ai + (bi + ci));
    lemma_congruent_small(fadd(fadd(a, b), c), fadd(a, fadd(b, c)));
}

/// Adding zero to a value below the modulus leaves it unchanged.
pub proof fn lemma_fadd_zero(a: nat)
    requires
        a < scalar_modulus(),
    ensures
        fadd(a, 0) == a,
        fadd(0, a) == a,
{
    lemma_small_mod(a, scalar_modulus());
}

/// A vector times a matrix, then paired with `r`, is the vector paired with
/// the matrix times `r`: `(cᵗ·M)·r = c·(M·r)`.
pub proof fn lemma_vec_mat_dot(c: Seq<nat>, m: Seq<Seq<nat>>, r: Seq<nat>, n: nat, k: nat)
    requires
        crate::math::has_shape(m, n, k),
        c.len() == n,
        r.len() == k,
    ensures
        crate::math::dot(crate::math::vec_mat(c, m, k), r) == crate::math::dot(
            c,
            crate::math::mat_vec(m, r),
        ),
{
    let left = crate::math::vec_mat(c, m, k);
    let w = crate::math::mat_vec(m, r);
    lemma_exchange(m, r, c, n, k);
    assert forall|i: int| 0 <= i < n implies row_dots(m, r, n, k)[i] == w[i] by {
        assert(m[i].len() == k);
    }
    lemma_dot_congruent(row_dots(m, r, n, k), w, c, c, n);
    assert forall|j: int| 0 <= j < k implies column_dots(m, c, n, k)[j] == left[j] by {
        lemma_dot_commutes(column(m, j), c, n);
    }
    lemma_dot_congruent(r, r, column_dots(m, c, n, k), left, k);
    lemma_dot_commutes(left, r, k);
    lemma_dot_commutes(w, c, n);
}

} // verus!

//! Arithmetic modulo the prime order shared by the scalar field and the three
//! groups, and the linear algebra over it in which every contract is stated.

use vstd::prelude::*;

verus! {

/// The prime order of the scalar field of BLS12-381, which is also the order
/// of the groups G1, G2 and GT.
pub open spec fn scalar_modulus() -> nat {
    let hi: nat = 0x73eda753299d7d483339d80809a1d805;
    let lo: nat = 0x53bda402fffe5bfeffffffff00000001;
    let word: nat = 0x1_0000_0000_0000_0000;
    hi * word * word + lo
}

/// Sum in the scalar field.
pub open spec fn fadd(a: nat, b: nat) -> nat {
    (a + b) % scalar_modulus()
}

/// Product in the scalar field.
pub open spec fn fmul(a: nat, b: nat) -> nat {
    (a * b) % scalar_modulus()
}

/// Additive inverse in the scalar field.
pub open spec fn fneg(a: nat) -> nat {
    ((scalar_modulus() - a % scalar_modulus()) % (scalar_modulus() as int)) as nat
}

/// The smaller of two lengths.
pub open spec fn shorter(a: nat, b: nat) -> nat {
    if a <= b { a } else { b }
}

/// Inner product of the first `n` entries of `a` and `b`, summed from the
/// left starting at zero.
pub open spec fn dot_prefix(a: Seq<nat>, b: Seq<nat>, n: nat) -> nat
    decreases n,
{
    if n == 0 {
        0
    } else {
        fadd(dot_prefix(a, b, (n - 1) as nat), fmul(a[n - 1], b[n - 1]))
    }
}

/// Inner product of two sequences over their common length.
pub open spec fn dot(a: Seq<nat>, b: Seq<nat>) -> nat {
    dot_prefix(a, b, shorter(a.len(), b.len()))
}

/// Entrywise sum over the common length.
pub open spec fn vec_add(a: Seq<nat>, b: Seq<nat>) -> Seq<nat> {
    Seq::new(shorter(a.len(), b.len()), |i: int| fadd(a[i], b[i]))
}

/// Every entry multiplied by `c`.
pub open spec fn vec_scale(c: nat, v: Seq<nat>) -> Seq<nat> {
    Seq::new(v.len(), |i: int| fmul(c, v[i]))
}

/// Every entry negated.
pub open spec fn vec_neg(v: Seq<nat>) -> Seq<nat> {
    Seq::new(v.len(), |i: int| fneg(v[i]))
}

/// The pairings of one point with each entry of a row: the sum, over the
/// first `n` entries, of the products of the exponents, added to `start`.
pub open spec fn row_pairing(p: nat, row: Seq<nat>, n: nat, start: nat) -> nat
    decreases n,
{
    if n == 0 {
        start
    } else {
        fadd(row_pairing(p, row, (n - 1) as nat, start), fmul(p, row[n - 1]))
    }
}

/// The pairings of each of the first `n` points with every entry of the row
/// of its index, added to `start`.
pub open spec fn block_pairing(points: Seq<nat>, m: Seq<Seq<nat>>, n: nat, start: nat) -> nat
    decreases n,
{
    if n == 0 {
        start
    } else {
        row_pairing(
            points[n - 1],
            m[n - 1],
            m[n - 1].len(),
            block_pairing(points, m, (n - 1) as nat, start),
        )
    }
}

/// The sum of the matrices that the first `n` bits select, one of each pair,
/// added to `start` from the left.
pub open spec fn selected_sum(
    pairs: Seq<Seq<Seq<Seq<nat>>>>,
    bits: Seq<bool>,
    n: nat,
    start: Seq<Seq<nat>>,
) -> Seq<Seq<nat>>
    decreases n,
{
    if n == 0 {
        start
    } else {
        mat_add(
            selected_sum(pairs, bits, (n - 1) as nat, start),
            pairs[n - 1][if bits[n - 1] { 1int } else { 0int }],
        )
    }
}

/// A vector of `n` zeros.
pub open spec fn zeros(n: nat) -> Seq<nat> {
    Seq::new(n, |i: int| 0nat)
}

/// A matrix is rectangular when each of its rows has `cols` entries.
pub open spec fn has_shape(m: Seq<Seq<nat>>, rows: nat, cols: nat) -> bool {
    &&& m.len() == rows
    &&& forall|i: int| 0 <= i < m.len() ==> (#[trigger] m[i]).len() == cols
}

/// Column `j` of a matrix.
pub open spec fn column(m: Seq<Seq<nat>>, j: int) -> Seq<nat> {
    Seq::new(m.len(), |i: int| m[i][j])
}

/// Matrix times vector: one inner product per row.
pub open spec fn mat_vec(m: Seq<Seq<nat>>, v: Seq<nat>) -> Seq<nat> {
    Seq::new(m.len(), |i: int| dot(m[i], v))
}

/// Vector times matrix: one inner product per column.
pub open spec fn vec_mat(v: Seq<nat>, m: Seq<Seq<nat>>, cols: nat) -> Seq<nat> {
    Seq::new(cols, |j: int| dot(v, column(m, j)))
}

/// Matrix product of `a` with a matrix `b` of `cols` columns.
pub open spec fn mat_mul(a: Seq<Seq<nat>>, b: Seq<Seq<nat>>, cols: nat) -> Seq<Seq<nat>> {
    Seq::new(a.len(), |i: int| vec_mat(a[i], b, cols))
}

/// Transpose of a matrix of `cols` columns.
pub open spec fn transpose(m: Seq<Seq<nat>>, cols: nat) -> Seq<Seq<nat>> {
    Seq::new(cols, |j: int| column(m, j))
}

/// Rows of `a` followed, each, by the row of `b` at the same index.
pub open spec fn mat_concat(a: Seq<Seq<nat>>, b: Seq<Seq<nat>>) -> Seq<Seq<nat>> {
    Seq::new(a.len(), |i: int| a[i] + b[i])
}

/// Entrywise sum of two matrices of the same shape.
pub open spec fn mat_add(a: Seq<Seq<nat>>, b: Seq<Seq<nat>>) -> Seq<Seq<nat>> {
    Seq::new(a.len(), |i: int| vec_add(a[i], b[i]))
}

/// Every entry of a matrix multiplied by `c`.
pub open spec fn mat_scale(c: nat, m: Seq<Seq<nat>>) -> Seq<Seq<nat>> {
    Seq::new(m.len(), |i: int| vec_scale(c, m[i]))
}

/// A matrix of zeros.
pub open spec fn zero_matrix(rows: nat, cols: nat) -> Seq<Seq<nat>> {
    Seq::new(rows, |i: int| zeros(cols))
}

/// The modulus is greater than one.
pub proof fn lemma_modulus_large()
    ensures
        scalar_modulus() > 0x1_0000_0000_0000_0000,
{
    let hi: nat = 0x73eda753299d7d483339d80809a1d805;
    let word: nat = 0x1_0000_0000_0000_0000;
    assert(hi * word * word >= word) by (nonlinear_arith)
        requires
            hi >= 1,
            word >= 1,
    ;
}

/// Every entry is below the modulus.
pub open spec fn canonical(v: Seq<nat>) -> bool {
    forall|i: int| 0 <= i < v.len() ==> (#[trigger] v[i]) < scalar_modulus()
}

/// A sum or a product in the field is below the modulus.
pub proof fn lemma_field_bound(a: nat, b: nat)
    ensures
        fadd(a, b) < scalar_modulus(),
        fmul(a, b) < scalar_modulus(),
{
    lemma_modulus_large();
    vstd::arithmetic::div_mod::lemma_mod_bound((a + b) as int, scalar_modulus() as int);
    vstd::arithmetic::div_mod::lemma_mod_bound((a * b) as int, scalar_modulus() as int);
}

/// One times a value below the modulus is that value.
pub proof fn lemma_mul_one(a: nat)
    requires
        a < scalar_modulus(),
    ensures
        fmul(1, a) == a,
        fmul(a, 1) == a,
{
    vstd::arithmetic::div_mod::lemma_small_mod(a, scalar_modulus());
    assert(1 * a == a && a * 1 == a);
}

/// An inner product is below the modulus.
pub proof fn lemma_dot_bound(a: Seq<nat>, b: Seq<nat>, n: nat)
    ensures
        dot_prefix(a, b, n) < scalar_modulus(),
{
    lemma_modulus_large();
    if n > 0 {
        lemma_field_bound(dot_prefix(a, b, (n - 1) as nat), fmul(a[n - 1], b[n - 1]));
    }
}

/// The entries of a sum of vectors are below the modulus.
pub proof fn lemma_vec_add_canonical(a: Seq<nat>, b: Seq<nat>)
    ensures
        canonical(vec_add(a, b)),
{
    assert forall|i: int| 0 <= i < vec_add(a, b).len() implies (#[trigger] vec_add(a, b)[i])
        < scalar_modulus() by {
        lemma_field_bound(a[i], b[i]);
    }
}

/// The entries of a matrix times a vector are below the modulus.
pub proof fn lemma_mat_vec_canonical(m: Seq<Seq<nat>>, v: Seq<nat>)
    ensures
        canonical(mat_vec(m, v)),
{
    assert forall|i: int| 0 <= i < mat_vec(m, v).len() implies (#[trigger] mat_vec(m, v)[i])
        < scalar_modulus() by {
        lemma_dot_bound(m[i], v, shorter(m[i].len(), v.len()));
    }
}

/// Scaling by one leaves a vector of entries below the modulus unchanged.
pub proof fn lemma_scale_one(v: Seq<nat>)
    requires
        canonical(v),
    ensures
        vec_scale(1, v) == v,
{
    assert forall|i: int| 0 <= i < v.len() implies vec_scale(1, v)[i] == v[i] by {
        lemma_mul_one(v[i]);
    }
    assert(vec_scale(1, v) =~= v);
}

/// Scaling by one leaves a matrix of entries below the modulus unchanged.
pub proof fn lemma_mat_scale_one(m: Seq<Seq<nat>>)
    requires
        forall|i: int| 0 <= i < m.len() ==> canonical(#[trigger] m[i]),
    ensures
        mat_scale(1, m) == m,
{
    assert forall|i: int| 0 <= i < m.len() implies mat_scale(1, m)[i] == m[i] by {
        lemma_scale_one(m[i]);
    }
    assert(mat_scale(1, m) =~= m);
}

} // verus!

//! Vectors and matrices over the scalar field and over the groups.

use vstd::prelude::*;
use crate::group_ctx::GroupCtx;
use crate::math::{
    column, dot, dot_prefix, fadd, fmul, has_shape, mat_add, mat_concat, mat_mul, mat_scale,
    mat_vec, shorter, transpose, vec_add, vec_scale, zero_matrix, zeros,
};
use crate::types::{
    g1_rows, g1s, g2_rows, g2s, scalar_rows, scalars, FieldElement, Matrix, Vector, G1, G2,
};

verus! {

/// Every row of the matrix has `cols` entries.
pub open spec fn rows_have<T>(m: Seq<Vec<T>>, cols: nat) -> bool {
    forall|i: int| 0 <= i < m.len() ==> (#[trigger] m[i])@.len() == cols
}

/// A fresh field element from the thread's random generator. Whatever is
/// drawn, it is an element of the field: its representative is below the
/// modulus.
pub fn random_field_element() -> (r: FieldElement)
    ensures
        crate::types::field_repr(r) < crate::math::scalar_modulus(),
{
    FieldElement::random()
}

/// `len` fresh field elements.
pub fn random_vector(len: usize) -> (r: Vector)
    ensures
        r@.len() == len,
{
    let mut out: Vector = Vec::new();
    let mut i: usize = 0;
    while i < len
        invariant
            i <= len,
            out@.len() == i,
        decreases len - i,
    {
        out.push(random_field_element());
        i += 1;
    }
    out
}

/// A matrix of `rows` by `cols` fresh field elements.
pub fn random_matrix(rows: usize, cols: usize) -> (r: Matrix<FieldElement>)
    ensures
        r@.len() == rows,
        rows_have(r@, cols as nat),
{
    let mut out: Matrix<FieldElement> = Vec::new();
    let mut i: usize = 0;
    while i < rows
        invariant
            i <= rows,
            out@.len() == i,
            rows_have(out@, cols as nat),
        decreases rows - i,
    {
        out.push(random_vector(cols));
        i += 1;
    }
    out
}

/// The inner product of two vectors over their common length.
pub fn inner_product(a: &Vector, b: &Vector) -> (r: FieldElement)
    ensures
        r@ == dot(scalars(a@), scalars(b@)),
{
    let n: usize = if a.len() <= b.len() { a.len() } else { b.len() };
    let mut acc = FieldElement::zero();
    let mut j: usize = 0;
    while j < n
        invariant
            j <= n,
            n == shorter(a@.len(), b@.len()),
            acc@ == dot_prefix(scalars(a@), scalars(b@), j as nat),
        decreases n - j,
    {
        let term = a[j].times(&b[j]);
        acc = acc.plus(&term);
        j += 1;
    }
    acc
}

/// Matrix times vector.
pub fn matrix_vector_mul(matrix: &Matrix<FieldElement>, vector: &Vector) -> (r: Vector)
    ensures
        scalars(r@) == mat_vec(scalar_rows(matrix@), scalars(vector@)),
{
    let mut out: Vector = Vec::new();
    let mut i: usize = 0;
    while i < matrix.len()
        invariant
            i <= matrix.len(),
            out@.len() == i,
            forall|t: int| 0 <= t < i ==> (#[trigger] out@[t])@ == dot(scalars(matrix@[t]@), scalars(vector@)),
        decreases matrix.len() - i,
    {
        out.push(inner_product(&matrix[i], vector));
        i += 1;
    }
    assert(scalars(out@) =~= mat_vec(scalar_rows(matrix@), scalars(vector@)));
    out
}

/// Entrywise sum of two vectors over their common length.
pub fn vector_add(a: &Vector, b: &Vector) -> (r: Vector)
    ensures
        scalars(r@) == vec_add(scalars(a@), scalars(b@)),
{
    let n: usize = if a.len() <= b.len() { a.len() } else { b.len() };
    let mut out: Vector = Vec::new();
    let mut i: usize = 0;
    while i < n
        invariant
            i <= n,
            n == shorter(a@.len(), b@.len()),
            out@.len() == i,
            forall|t: int| 0 <= t < i ==> (#[trigger] out@[t])@ == fadd(a@[t]@, b@[t]@),
        decreases n - i,
    {
        out.push(a[i].plus(&b[i]));
        i += 1;
    }
    assert(scalars(out@) =~= vec_add(scalars(a@), scalars(b@)));
    out
}

/// Entrywise sum of two vectors of G1 points over their common length.
pub fn vector_add_g1(a: &Vec<G1>, b: &Vec<G1>) -> (r: Vec<G1>)
    ensures
        g1s(r@) == vec_add(g1s(a@), g1s(b@)),
{
    let n: usize = if a.len() <= b.len() { a.len() } else { b.len() };
    let mut out: Vec<G1> = Vec::new();
    let mut i: usize = 0;
    while i < n
        invariant
            i <= n,
            n == shorter(a@.len(), b@.len()),
            out@.len() == i,
            forall|t: int| 0 <= t < i ==> (#[trigger] out@[t])@ == fadd(a@[t]@, b@[t]@),
        decreases n - i,
    {
        out.push(a[i].plus(&b[i]));
        i += 1;
    }
    assert(g1s(out@) =~= vec_add(g1s(a@), g1s(b@)));
    out
}

/// Every entry of a vector multiplied by `scalar`.
pub fn scalar_vector_mul(scalar: FieldElement, vector: &Vector) -> (r: Vector)
    ensures
        scalars(r@) == vec_scale(scalar@, scalars(vector@)),
{
    let mut out: Vector = Vec::new();
    let mut i: usize = 0;
    while i < vector.len()
        invariant
            i <= vector.len(),
            out@.len() == i,
            forall|t: int| 0 <= t < i ==> (#[trigger] out@[t])@ == fmul(scalar@, vector@[t]@),
        decreases vector.len() - i,
    {
        out.push(scalar.times(&vector[i]));
        i += 1;
    }
    assert(scalars(out@) =~= vec_scale(scalar@, scalars(vector@)));
    out
}

/// A vector of `len` zeros of the field.
pub fn vector_zero(len: usize) -> (r: Vector)
    ensures
        scalars(r@) == zeros(len as nat),
{
    let mut out: Vector = Vec::new();
    let mut i: usize = 0;
    while i < len
        invariant
            i <= len,
            out@.len() == i,
            forall|t: int| 0 <= t < i ==> (#[trigger] out@[t])@ == 0,
        decreases len - i,
    {
        out.push(FieldElement::zero());
        i += 1;
    }
    assert(scalars(out@) =~= zeros(len as nat));
    out
}

/// A vector of `len` copies of the identity of G1.
pub fn vector_zero_g1(len: usize) -> (r: Vec<G1>)
    ensures
        g1s(r@) == zeros(len as nat),
{
    let mut out: Vec<G1> = Vec::new();
    let mut i: usize = 0;
    while i < len
        invariant
            i <= len,
            out@.len() == i,
            forall|t: int| 0 <= t < i ==> (#[trigger] out@[t])@ == 0,
        decreases len - i,
    {
        out.push(G1::zero());
        i += 1;
    }
    assert(g1s(out@) =~= zeros(len as nat));
    out
}

/// A vector of `len` copies of the identity of G2.
pub fn vector_zero_g2(len: usize) -> (r: Vec<G2>)
    ensures
        g2s(r@) == zeros(len as nat),
{
    let mut out: Vec<G2> = Vec::new();
    let mut i: usize = 0;
    while i < len
        invariant
            i <= len,
            out@.len() == i,
            forall|t: int| 0 <= t < i ==> (#[trigger] out@[t])@ == 0,
        decreases len - i,
    {
        out.push(G2::zero());
        i += 1;
    }
    assert(g2s(out@) =~= zeros(len as nat));
    out
}

/// A matrix of zeros of the field.
pub fn matrix_zero(rows: usize, cols: usize) -> (r: Matrix<FieldElement>)
    ensures
        scalar_rows(r@) == zero_matrix(rows as nat, cols as nat),
{
    let mut out: Matrix<FieldElement> = Vec::new();
    let mut i: usize = 0;
    while i < rows
        invariant
            i <= rows,
            out@.len() == i,
            forall|t: int| 0 <= t < i ==> scalars((#[trigger] out@[t])@) == zeros(cols as nat),
        decreases rows - i,
    {
        out.push(vector_zero(cols));
        i += 1;
    }
    assert(scalar_rows(out@) =~= zero_matrix(rows as nat, cols as nat));
    out
}

/// A matrix of copies of the identity of G1.
pub fn matrix_zero_g1(rows: usize, cols: usize) -> (r: Matrix<G1>)
    ensures
        g1_rows(r@) == zero_matrix(rows as nat, cols as nat),
{
    let mut out: Matrix<G1> = Vec::new();
    let mut i: usize = 0;
    while i < rows
        invariant
            i <= rows,
            out@.len() == i,
            forall|t: int| 0 <= t < i ==> g1s((#[trigger] out@[t])@) == zeros(cols as nat),
        decreases rows - i,
    {
        out.push(vector_zero_g1(cols));
        i += 1;
    }
    assert(g1_rows(out@) =~= zero_matrix(rows as nat, cols as nat));
    out
}

/// A matrix of copies of the identity of G2.
pub fn matrix_zero_g2(rows: usize, cols: usize) -> (r: Matrix<G2>)
    ensures
        g2_rows(r@) == zero_matrix(rows as nat, cols as nat),
{
    let mut out: Matrix<G2> = Vec::new();
    let mut i: usize = 0;
    while i < rows
        invariant
            i <= rows,
            out@.len() == i,
            forall|t: int| 0 <= t < i ==> g2s((#[trigger] out@[t])@) == zeros(cols as nat),
        decreases rows - i,
    {
        out.push(vector_zero_g2(cols));
        i += 1;
    }
    assert(g2_rows(out@) =~= zero_matrix(rows as nat, cols as nat));
    out
}

/// The vector lifted into G1: each entry times the generator.
pub fn vector_lift_g1(v: &Vector, group: &GroupCtx) -> (r: Vec<G1>)
    ensures
        g1s(r@) == vec_scale(group.g1@, scalars(v@)),
{
    let mut out: Vec<G1> = Vec::new();
    let mut i: usize = 0;
    while i < v.len()
        invariant
            i <= v.len(),
            out@.len() == i,
            forall|t: int| 0 <= t < i ==> (#[trigger] out@[t])@ == fmul(group.g1@, v@[t]@),
        decreases v.len() - i,
    {
        out.push(group.scalar_mul_p1(v[i]));
        i += 1;
    }
    assert(g1s(out@) =~= vec_scale(group.g1@, scalars(v@)));
    out
}

/// The vector lifted into G2: each entry times the generator.
pub fn vector_lift_g2(v: &Vector, group: &GroupCtx) -> (r: Vec<G2>)
    ensures
        g2s(r@) == vec_scale(group.g2@, scalars(v@)),
{
    let mut out: Vec<G2> = Vec::new();
    let mut i: usize = 0;
    while i < v.len()
        invariant
            i <= v.len(),
            out@.len() == i,
            forall|t: int| 0 <= t < i ==> (#[trigger] out@[t])@ == fmul(group.g2@, v@[t]@),
        decreases v.len() - i,
    {
        out.push(group.scalar_mul_p2(v[i]));
        i += 1;
    }
    assert(g2s(out@) =~= vec_scale(group.g2@, scalars(v@)));
    out
}

/// The matrix lifted into G1, entry by entry.
pub fn matrix_lift_g1(m: &Matrix<FieldElement>, group: &GroupCtx) -> (r: Matrix<G1>)
    ensures
        g1_rows(r@) == mat_scale(group.g1@, scalar_rows(m@)),
{
    let mut out: Matrix<G1> = Vec::new();
    let mut i: usize = 0;
    while i < m.len()
        invariant
            i <= m.len(),
            out@.len() == i,
            forall|t: int| 0 <= t < i ==> g1s((#[trigger] out@[t])@) == vec_scale(group.g1@, scalars(m@[t]@)),
        decreases m.len() - i,
    {
        out.push(vector_lift_g1(&m[i], group));
        i += 1;
    }
    assert(g1_rows(out@) =~= mat_scale(group.g1@, scalar_rows(m@)));
    out
}

/// The matrix lifted into G2, entry by entry.
pub fn matrix_lift_g2(m: &Matrix<FieldElement>, group: &GroupCtx) -> (r: Matrix<G2>)
    ensures
        g2_rows(r@) == mat_scale(group.g2@, scalar_rows(m@)),
{
    let mut out: Matrix<G2> = Vec::new();
    let mut i: usize = 0;
    while i < m.len()
        invariant
            i <= m.len(),
            out@.len() == i,
            forall|t: int| 0 <= t < i ==> g2s((#[trigger] out@[t])@) == vec_scale(group.g2@, scalars(m@[t]@)),
        decreases m.len() - i,
    {
        out.push(vector_lift_g2(&m[i], group));
        i += 1;
    }
    assert(g2_rows(out@) =~= mat_scale(group.g2@, scalar_rows(m@)));
    out
}

/// `r` is the transpose of the rectangular matrix `m` of `cols` columns.
pub open spec fn is_transpose<T>(m: Seq<Vec<T>>, r: Seq<Vec<T>>, cols: nat) -> bool {
    &&& rows_have(m, cols)
    &&& r.len() == cols
    &&& rows_have(r, m.len())
    &&& forall|j: int, i: int|
        0 <= j < cols && 0 <= i < m.len() ==> (#[trigger] r[j]@[i]) == m[i]@[j]
}

/// The transpose of a rectangular matrix with at least one row.
pub fn matrix_transpose<T: Copy>(matrix: &Matrix<T>) -> (r: Matrix<T>)
    requires
        matrix@.len() > 0,
        rows_have(matrix@, matrix@[0]@.len()),
    ensures
        is_transpose(matrix@, r@, matrix@[0]@.len()),
{
    let rows: usize = matrix.len();
    let cols: usize = matrix[0].len();
    let mut out: Matrix<T> = Vec::new();
    let mut j: usize = 0;
    while j < cols
        invariant
            j <= cols,
            rows == matrix@.len(),
            cols == matrix@[0]@.len(),
            rows_have(matrix@, cols as nat),
            out@.len() == j,
            rows_have(out@, rows as nat),
            forall|c: int, i: int|
                0 <= c < j && 0 <= i < rows ==> (#[trigger] out@[c]@[i]) == matrix@[i]@[c],
        decreases cols - j,
    {
        let mut line: Vec<T> = Vec::new();
        let mut i: usize = 0;
        while i < rows
            invariant
                i <= rows,
                j < cols,
                rows == matrix@.len(),
                rows_have(matrix@, cols as nat),
                line@.len() == i,
                forall|t: int| 0 <= t < i ==> (#[trigger] line@[t]) == matrix@[t]@[j as int],
            decreases rows - i,
        {
            line.push(matrix[i][j]);
            i += 1;
        }
        out.push(line);
        j += 1;
    }
    out
}

/// A transpose of field elements is the transpose of their values.
pub proof fn lemma_transpose_scalars(m: Seq<Vec<FieldElement>>, r: Seq<Vec<FieldElement>>, cols: nat)
    requires
        is_transpose(m, r, cols),
    ensures
        scalar_rows(r) == transpose(scalar_rows(m), cols),
{
    assert forall|j: int| 0 <= j < cols implies scalars(#[trigger] r[j]@) == column(
        scalar_rows(m),
        j,
    ) by {
        assert forall|i: int| 0 <= i < m.len() implies scalars(r[j]@)[i] == column(
            scalar_rows(m),
            j,
        )[i] by {
            assert(r[j]@[i] == m[i]@[j]);
        }
        assert(scalars(r[j]@) =~= column(scalar_rows(m), j));
    }
    assert(scalar_rows(r) =~= transpose(scalar_rows(m), cols));
}

/// A transpose of G1 points is the transpose of their exponents.
pub proof fn lemma_transpose_g1(m: Seq<Vec<G1>>, r: Seq<Vec<G1>>, cols: nat)
    requires
        is_transpose(m, r, cols),
    ensures
        g1_rows(r) == transpose(g1_rows(m), cols),
{
    assert forall|j: int| 0 <= j < cols implies g1s(#[trigger] r[j]@) == column(g1_rows(m), j) by {
        assert forall|i: int| 0 <= i < m.len() implies g1s(r[j]@)[i] == column(g1_rows(m), j)[i] by {
            assert(r[j]@[i] == m[i]@[j]);
        }
        assert(g1s(r[j]@) =~= column(g1_rows(m), j));
    }
    assert(g1_rows(r) =~= transpose(g1_rows(m), cols));
}

/// The rows of `a`, each followed by the row of `b` at the same index.
pub fn matrix_concat<T: Copy>(a: &Matrix<T>, b: &Matrix<T>) -> (r: Matrix<T>)
    requires
        a@.len() == b@.len(),
    ensures
        r@.len() == a@.len(),
        forall|i: int| 0 <= i < a@.len() ==> (#[trigger] r@[i])@ == a@[i]@ + b@[i]@,
{
    let mut out: Matrix<T> = Vec::new();
    let mut i: usize = 0;
    while i < a.len()
        invariant
            i <= a@.len(),
            a@.len() == b@.len(),
            out@.len() == i,
            forall|t: int| 0 <= t < i ==> (#[trigger] out@[t])@ == a@[t]@ + b@[t]@,
        decreases a.len() - i,
    {
        let mut line: Vec<T> = Vec::new();
        let mut j: usize = 0;
        while j < a[i].len()
            invariant
                i < a@.len(),
                j <= a@[i as int]@.len(),
                line@ == a@[i as int]@.subrange(0, j as int),
            decreases a@[i as int]@.len() - j,
        {
            line.push(a[i][j]);
            assert(line@ =~= a@[i as int]@.subrange(0, j + 1));
            j += 1;
        }
        assert(line@ =~= a@[i as int]@);
        let mut j: usize = 0;
        while j < b[i].len()
            invariant
                i < b@.len(),
                j <= b@[i as int]@.len(),
                line@ == a@[i as int]@ + b@[i as int]@.subrange(0, j as int),
            decreases b@[i as int]@.len() - j,
        {
            line.push(b[i][j]);
            assert(line@ =~= a@[i as int]@ + b@[i as int]@.subrange(0, j + 1));
            j += 1;
        }
        assert(line@ =~= a@[i as int]@ + b@[i as int]@);
        out.push(line);
        i += 1;
    }
    out
}

/// A row-wise concatenation of field elements is that of their values.
pub proof fn lemma_concat_scalars(
    a: Seq<Vec<FieldElement>>,
    b: Seq<Vec<FieldElement>>,
    r: Seq<Vec<FieldElement>>,
)
    requires
        r.len() == a.len(),
        a.len() == b.len(),
        forall|i: int| 0 <= i < a.len() ==> (#[trigger] r[i])@ == a[i]@ + b[i]@,
    ensures
        scalar_rows(r) == mat_concat(scalar_rows(a), scalar_rows(b)),
{
    assert forall|i: int| 0 <= i < a.len() implies scalars(#[trigger] r[i]@) == scalars(a[i]@)
        + scalars(b[i]@) by {
        assert(scalars(r[i]@) =~= scalars(a[i]@) + scalars(b[i]@));
    }
    assert(scalar_rows(r) =~= mat_concat(scalar_rows(a), scalar_rows(b)));
}

/// The entries of `a` followed by those of `b`.
pub fn vector_concat(a: &Vector, b: &Vector) -> (r: Vector)
    ensures
        r@ == a@ + b@,
        scalars(r@) == scalars(a@) + scalars(b@),
{
    let mut out: Vector = Vec::new();
    let mut j: usize = 0;
    while j < a.len()
        invariant
            j <= a@.len(),
            out@ == a@.subrange(0, j as int),
        decreases a.len() - j,
    {
        out.push(a[j]);
        assert(out@ =~= a@.subrange(0, j + 1));
        j += 1;
    }
    assert(out@ =~= a@);
    let mut j: usize = 0;
    while j < b.len()
        invariant
            j <= b@.len(),
            out@ == a@ + b@.subrange(0, j as int),
        decreases b.len() - j,
    {
        out.push(b[j]);
        assert(out@ =~= a@ + b@.subrange(0, j + 1));
        j += 1;
    }
    assert(out@ =~= a@ + b@);
    assert(scalars(out@) =~= scalars(a@) + scalars(b@));
    out
}

/// The product of two matrices of field elements.
pub fn matrix_multiply(a: &Matrix<FieldElement>, b: &Matrix<FieldElement>) -> (r: Matrix<
    FieldElement,
>)
    requires
        a@.len() > 0,
        b@.len() > 0,
        rows_have(a@, b@.len()),
        rows_have(b@, b@[0]@.len()),
    ensures
        scalar_rows(r@) == mat_mul(scalar_rows(a@), scalar_rows(b@), b@[0]@.len()),
{
    let cols: usize = b[0].len();
    let columns = matrix_transpose(b);
    proof {
        lemma_transpose_scalars(b@, columns@, cols as nat);
    }
    let mut out: Matrix<FieldElement> = Vec::new();
    let mut i: usize = 0;
    while i < a.len()
        invariant
            i <= a@.len(),
            cols == b@[0]@.len(),
            columns@.len() == cols,
            scalar_rows(columns@) == transpose(scalar_rows(b@), cols as nat),
            out@.len() == i,
            forall|t: int|
                0 <= t < i ==> scalars((#[trigger] out@[t])@) == crate::math::vec_mat(
                    scalars(a@[t]@),
                    scalar_rows(b@),
                    cols as nat,
                ),
        decreases a.len() - i,
    {
        let mut line: Vector = Vec::new();
        let mut j: usize = 0;
        while j < cols
            invariant
                i < a@.len(),
                j <= cols,
                columns@.len() == cols,
                scalar_rows(columns@) == transpose(scalar_rows(b@), cols as nat),
                line@.len() == j,
                forall|t: int|
                    0 <= t < j ==> (#[trigger] line@[t])@ == dot(
                        scalars(a@[i as int]@),
                        column(scalar_rows(b@), t),
                    ),
            decreases cols - j,
        {
            assert(scalar_rows(columns@)[j as int] == column(scalar_rows(b@), j as int));
            line.push(inner_product(&a[i], &columns[j]));
            j += 1;
        }
        assert(scalars(line@) =~= crate::math::vec_mat(
            scalars(a@[i as int]@),
            scalar_rows(b@),
            cols as nat,
        ));
        out.push(line);
        i += 1;
    }
    assert(scalar_rows(out@) =~= mat_mul(scalar_rows(a@), scalar_rows(b@), cols as nat));
    out
}

/// Every point of a matrix over G1 multiplied by `x`.
pub fn matrix_multiply_scalar(a: &Matrix<G1>, x: FieldElement) -> (r: Matrix<G1>)
    requires
        a@.len() > 0,
        a@[0]@.len() > 0,
        rows_have(a@, a@[0]@.len()),
    ensures
        g1_rows(r@) == mat_scale(x@, g1_rows(a@)),
{
    let mut out: Matrix<G1> = Vec::new();
    let mut i: usize = 0;
    while i < a.len()
        invariant
            i <= a@.len(),
            out@.len() == i,
            forall|t: int|
                0 <= t < i ==> g1s((#[trigger] out@[t])@) == vec_scale(x@, g1s(a@[t]@)),
        decreases a.len() - i,
    {
        let mut line: Vec<G1> = Vec::new();
        let mut j: usize = 0;
        while j < a[i].len()
            invariant
                i < a@.len(),
                j <= a@[i as int]@.len(),
                line@.len() == j,
                forall|t: int| 0 <= t < j ==> (#[trigger] line@[t])@ == fmul(x@, a@[i as int]@[t]@),
            decreases a@[i as int]@.len() - j,
        {
            let scaled = a[i][j].times(&x);
            assert(fmul(a@[i as int]@[j as int]@, x@) == fmul(x@, a@[i as int]@[j as int]@)) by {
                vstd::arithmetic::mul::lemma_mul_is_commutative(
                    a@[i as int]@[j as int]@ as int,
                    x@ as int,
                );
            }
            line.push(scaled);
            j += 1;
        }
        assert(g1s(line@) =~= vec_scale(x@, g1s(a@[i as int]@)));
        out.push(line);
        i += 1;
    }
    assert(g1_rows(out@) =~= mat_scale(x@, g1_rows(a@)));
    out
}

/// Entrywise sum of two matrices over G1 of the same shape.
pub fn matrix_add_g1(a: &Matrix<G1>, b: &Matrix<G1>) -> (r: Matrix<G1>)
    requires
        a@.len() > 0,
        b@.len() == a@.len(),
        rows_have(a@, a@[0]@.len()),
        rows_have(b@, a@[0]@.len()),
    ensures
        g1_rows(r@) == mat_add(g1_rows(a@), g1_rows(b@)),
{
    add_rows_g1(a, b)
}

/// Row by row, the entrywise sum of the rows of two matrices over G1 over
/// their common length.
pub fn add_rows_g1(a: &Matrix<G1>, b: &Matrix<G1>) -> (r: Matrix<G1>)
    requires
        b@.len() == a@.len(),
    ensures
        g1_rows(r@) == mat_add(g1_rows(a@), g1_rows(b@)),
        r@.len() == a@.len(),
        forall|i: int|
            0 <= i < a@.len() ==> (#[trigger] r@[i])@.len() == shorter(
                a@[i]@.len(),
                b@[i]@.len(),
            ),
{
    let mut out: Matrix<G1> = Vec::new();
    let mut i: usize = 0;
    while i < a.len()
        invariant
            i <= a@.len(),
            b@.len() == a@.len(),
            out@.len() == i,
            forall|t: int|
                0 <= t < i ==> g1s((#[trigger] out@[t])@) == vec_add(g1s(a@[t]@), g1s(b@[t]@)),
        decreases a.len() - i,
    {
        let line = vector_add_g1(&a[i], &b[i]);
        assert(g1s(line@).len() == line@.len());
        out.push(line);
        i += 1;
    }
    assert(g1_rows(out@) =~= mat_add(g1_rows(a@), g1_rows(b@)));
    out
}

/// Entrywise sum of two vectors of G2 points over their common length.
pub fn vector_add_g2(a: &Vec<G2>, b: &Vec<G2>) -> (r: Vec<G2>)
    ensures
        g2s(r@) == vec_add(g2s(a@), g2s(b@)),
{
    let n: usize = if a.len() <= b.len() { a.len() } else { b.len() };
    let mut out: Vec<G2> = Vec::new();
    let mut i: usize = 0;
    while i < n
        invariant
            i <= n,
            n == shorter(a@.len(), b@.len()),
            out@.len() == i,
            forall|t: int| 0 <= t < i ==> (#[trigger] out@[t])@ == fadd(a@[t]@, b@[t]@),
        decreases n - i,
    {
        out.push(a[i].plus(&b[i]));
        i += 1;
    }
    assert(g2s(out@) =~= vec_add(g2s(a@), g2s(b@)));
    out
}

/// Entrywise sum of two matrices over G2 of the same shape.
pub fn matrix_add_g2(a: &Matrix<G2>, b: &Matrix<G2>) -> (r: Matrix<G2>)
    requires
        a@.len() > 0,
        b@.len() == a@.len(),
        rows_have(a@, a@[0]@.len()),
        rows_have(b@, a@[0]@.len()),
    ensures
        g2_rows(r@) == mat_add(g2_rows(a@), g2_rows(b@)),
{
    add_rows_g2(a, b)
}

/// Row by row, the entrywise sum of the rows of two matrices over G2 over
/// their common length.
pub fn add_rows_g2(a: &Matrix<G2>, b: &Matrix<G2>) -> (r: Matrix<G2>)
    requires
        b@.len() == a@.len(),
    ensures
        g2_rows(r@) == mat_add(g2_rows(a@), g2_rows(b@)),
        r@.len() == a@.len(),
        forall|i: int|
            0 <= i < a@.len() ==> (#[trigger] r@[i])@.len() == shorter(
                a@[i]@.len(),
                b@[i]@.len(),
            ),
{
    let mut out: Matrix<G2> = Vec::new();
    let mut i: usize = 0;
    while i < a.len()
        invariant
            i <= a@.len(),
            b@.len() == a@.len(),
            out@.len() == i,
            forall|t: int|
                0 <= t < i ==> g2s((#[trigger] out@[t])@) == vec_add(g2s(a@[t]@), g2s(b@[t]@)),
        decreases a.len() - i,
    {
        let line = vector_add_g2(&a[i], &b[i]);
        assert(g2s(line@).len() == line@.len());
        out.push(line);
        i += 1;
    }
    assert(g2_rows(out@) =~= mat_add(g2_rows(a@), g2_rows(b@)));
    out
}

/// A matrix over G1 times a vector of scalars, one multi-scalar
/// multiplication per row.
pub fn group_matrix_vector_mul_msm(matrix_g1: &Matrix<G1>, vector: &Vector) -> (r: Vec<G1>)
    ensures
        g1s(r@) == mat_vec(g1_rows(matrix_g1@), scalars(vector@)),
{
    let mut out: Vec<G1> = Vec::new();
    let mut i: usize = 0;
    while i < matrix_g1.len()
        invariant
            i <= matrix_g1@.len(),
            out@.len() == i,
            forall|t: int|
                0 <= t < i ==> (#[trigger] out@[t])@ == dot(
                    g1s(matrix_g1@[t]@),
                    scalars(vector@),
                ),
        decreases matrix_g1.len() - i,
    {
        out.push(G1::msm(&matrix_g1[i], vector));
        i += 1;
    }
    assert(g1s(out@) =~= mat_vec(g1_rows(matrix_g1@), scalars(vector@)));
    out
}

/// The sum of the points, each multiplied by the scalar at its index, over
/// the common length.
pub fn linear_combination_g1(bases: &Vec<G1>, coefficients: &Vector) -> (r: G1)
    ensures
        r@ == dot(g1s(bases@), scalars(coefficients@)),
{
    let n: usize = if bases.len() <= coefficients.len() {
        bases.len()
    } else {
        coefficients.len()
    };
    let mut sum = G1::zero();
    let mut j: usize = 0;
    while j < n
        invariant
            j <= n,
            n == shorter(bases@.len(), coefficients@.len()),
            sum@ == dot_prefix(g1s(bases@), scalars(coefficients@), j as nat),
        decreases n - j,
    {
        let scaled = bases[j].times(&coefficients[j]);
        sum = sum.plus(&scaled);
        j += 1;
    }
    sum
}

/// The product of a matrix over G1 with a matrix of field elements.
pub fn g1_matrix_field_multiply(left_g1: &Matrix<G1>, right_field: &Matrix<FieldElement>) -> (r:
    Matrix<G1>)
    requires
        left_g1@.len() > 0,
        right_field@.len() > 0,
        rows_have(left_g1@, right_field@.len()),
        rows_have(right_field@, right_field@[0]@.len()),
    ensures
        g1_rows(r@) == mat_mul(g1_rows(left_g1@), scalar_rows(right_field@), right_field@[0]@.len()),
{
    let cols: usize = right_field[0].len();
    let columns = matrix_transpose(right_field);
    proof {
        lemma_transpose_scalars(right_field@, columns@, cols as nat);
    }
    let mut out: Matrix<G1> = Vec::new();
    let mut i: usize = 0;
    while i < left_g1.len()
        invariant
            i <= left_g1@.len(),
            cols == right_field@[0]@.len(),
            columns@.len() == cols,
            scalar_rows(columns@) == transpose(scalar_rows(right_field@), cols as nat),
            out@.len() == i,
            forall|t: int|
                0 <= t < i ==> g1s((#[trigger] out@[t])@) == crate::math::vec_mat(
                    g1s(left_g1@[t]@),
                    scalar_rows(right_field@),
                    cols as nat,
                ),
        decreases left_g1.len() - i,
    {
        let mut line: Vec<G1> = Vec::new();
        let mut j: usize = 0;
        while j < cols
            invariant
                i < left_g1@.len(),
                j <= cols,
                columns@.len() == cols,
                scalar_rows(columns@) == transpose(scalar_rows(right_field@), cols as nat),
                line@.len() == j,
                forall|t: int|
                    0 <= t < j ==> (#[trigger] line@[t])@ == dot(
                        g1s(left_g1@[i as int]@),
                        column(scalar_rows(right_field@), t),
                    ),
            decreases cols - j,
        {
            assert(scalar_rows(columns@)[j as int] == column(scalar_rows(right_field@), j as int));
            line.push(linear_combination_g1(&left_g1[i], &columns[j]));
            j += 1;
        }
        assert(g1s(line@) =~= crate::math::vec_mat(
            g1s(left_g1@[i as int]@),
            scalar_rows(right_field@),
            cols as nat,
        ));
        out.push(line);
        i += 1;
    }
    assert(g1_rows(out@) =~= mat_mul(g1_rows(left_g1@), scalar_rows(right_field@), cols as nat));
    out
}

/// The sum of the G2 points, each multiplied by the scalar at its index,
/// over the common length.
pub fn linear_combination_g2(coefficients: &Vector, points: &Vec<G2>) -> (r: G2)
    ensures
        r@ == dot(scalars(coefficients@), g2s(points@)),
{
    let n: usize = if coefficients.len() <= points.len() {
        coefficients.len()
    } else {
        points.len()
    };
    let mut sum = G2::zero();
    let mut j: usize = 0;
    while j < n
        invariant
            j <= n,
            n == shorter(coefficients@.len(), points@.len()),
            sum@ == dot_prefix(scalars(coefficients@), g2s(points@), j as nat),
        decreases n - j,
    {
        let scaled = points[j].times(&coefficients[j]);
        assert(fmul(points@[j as int]@, coefficients@[j as int]@) == fmul(
            coefficients@[j as int]@,
            points@[j as int]@,
        )) by {
            vstd::arithmetic::mul::lemma_mul_is_commutative(
                points@[j as int]@ as int,
                coefficients@[j as int]@ as int,
            );
        }
        sum = sum.plus(&scaled);
        j += 1;
    }
    sum
}

/// A matrix of field elements times a vector of G2 points.
pub fn matrix_vector_mul_g2(matrix: &Matrix<FieldElement>, points: &Vec<G2>) -> (r: Vec<G2>)
    ensures
        g2s(r@) == mat_vec(scalar_rows(matrix@), g2s(points@)),
{
    let mut out: Vec<G2> = Vec::new();
    let mut i: usize = 0;
    while i < matrix.len()
        invariant
            i <= matrix@.len(),
            out@.len() == i,
            forall|t: int|
                0 <= t < i ==> (#[trigger] out@[t])@ == dot(scalars(matrix@[t]@), g2s(points@)),
        decreases matrix.len() - i,
    {
        out.push(linear_combination_g2(&matrix[i], points));
        i += 1;
    }
    assert(g2s(out@) =~= mat_vec(scalar_rows(matrix@), g2s(points@)));
    out
}

/// Every point of a vector over G2 multiplied by `scalar`.
pub fn scalar_vector_mul_g2(scalar: FieldElement, points: &Vec<G2>) -> (r: Vec<G2>)
    ensures
        g2s(r@) == vec_scale(scalar@, g2s(points@)),
{
    let mut out: Vec<G2> = Vec::new();
    let mut i: usize = 0;
    while i < points.len()
        invariant
            i <= points@.len(),
            out@.len() == i,
            forall|t: int| 0 <= t < i ==> (#[trigger] out@[t])@ == fmul(scalar@, points@[t]@),
        decreases points.len() - i,
    {
        let scaled = points[i].times(&scalar);
        assert(fmul(points@[i as int]@, scalar@) == fmul(scalar@, points@[i as int]@)) by {
            vstd::arithmetic::mul::lemma_mul_is_commutative(
                points@[i as int]@ as int,
                scalar@ as int,
            );
        }
        out.push(scaled);
        i += 1;
    }
    assert(g2s(out@) =~= vec_scale(scalar@, g2s(points@)));
    out
}

/// A matrix of G1 points has the shape of its exponents.
pub proof fn lemma_g1_shape(m: Seq<Vec<G1>>, rows: nat, cols: nat)
    requires
        has_shape(g1_rows(m), rows, cols),
    ensures
        m.len() == rows,
        rows_have(m, cols),
{
    assert forall|i: int| 0 <= i < m.len() implies (#[trigger] m[i])@.len() == cols by {
        assert(g1_rows(m)[i].len() == cols);
    }
}

/// A matrix of G2 points has the shape of its exponents.
pub proof fn lemma_g2_shape(m: Seq<Vec<G2>>, rows: nat, cols: nat)
    requires
        has_shape(g2_rows(m), rows, cols),
    ensures
        m.len() == rows,
        rows_have(m, cols),
{
    assert forall|i: int| 0 <= i < m.len() implies (#[trigger] m[i])@.len() == cols by {
        assert(g2_rows(m)[i].len() == cols);
    }
}

/// The values of a matrix of field elements have its shape.
pub proof fn lemma_scalar_values_shape(m: Seq<Vec<FieldElement>>, cols: nat)
    requires
        rows_have(m, cols),
    ensures
        has_shape(scalar_rows(m), m.len(), cols),
{
    assert forall|i: int| 0 <= i < m.len() implies (#[trigger] scalar_rows(m)[i]).len() == cols by {
        assert(m[i]@.len() == cols);
    }
}

/// A scaled matrix has the shape of the matrix.
pub proof fn lemma_scale_shape(c: nat, m: Seq<Seq<nat>>, rows: nat, cols: nat)
    requires
        has_shape(m, rows, cols),
    ensures
        has_shape(mat_scale(c, m), rows, cols),
{
    assert forall|i: int| 0 <= i < m.len() implies (#[trigger] mat_scale(c, m)[i]).len() == cols by {
        assert(m[i].len() == cols);
    }
}

/// A product has as many rows as its left factor, and the columns asked for.
pub proof fn lemma_product_shape(a: Seq<Seq<nat>>, b: Seq<Seq<nat>>, cols: nat)
    ensures
        has_shape(mat_mul(a, b, cols), a.len(), cols),
{
    assert forall|i: int| 0 <= i < a.len() implies (#[trigger] mat_mul(a, b, cols)[i]).len()
        == cols by {}
}

/// A vector times a matrix of field elements: one inner product per column.
pub fn vector_matrix_mul(v: &Vector, m: &Matrix<FieldElement>) -> (r: Vector)
    requires
        m@.len() > 0,
        rows_have(m@, m@[0]@.len()),
    ensures
        scalars(r@) == crate::math::vec_mat(scalars(v@), scalar_rows(m@), m@[0]@.len()),
{
    let cols: usize = m[0].len();
    let columns = matrix_transpose(m);
    proof {
        lemma_transpose_scalars(m@, columns@, cols as nat);
    }
    let mut out: Vector = Vec::new();
    let mut j: usize = 0;
    while j < cols
        invariant
            j <= cols,
            columns@.len() == cols,
            scalar_rows(columns@) == transpose(scalar_rows(m@), cols as nat),
            out@.len() == j,
            forall|t: int|
                0 <= t < j ==> (#[trigger] out@[t])@ == dot(
                    scalars(v@),
                    column(scalar_rows(m@), t),
                ),
        decreases cols - j,
    {
        assert(scalar_rows(columns@)[j as int] == column(scalar_rows(m@), j as int));
        out.push(inner_product(v, &columns[j]));
        j += 1;
    }
    assert(scalars(out@) =~= crate::math::vec_mat(scalars(v@), scalar_rows(m@), cols as nat));
    out
}

/// Every point of a vector over G1 multiplied by `scalar`.
pub fn scalar_vector_mul_g1(scalar: FieldElement, points: &Vec<G1>) -> (r: Vec<G1>)
    ensures
        g1s(r@) == vec_scale(scalar@, g1s(points@)),
{
    let mut out: Vec<G1> = Vec::new();
    let mut i: usize = 0;
    while i < points.len()
        invariant
            i <= points@.len(),
            out@.len() == i,
            forall|t: int| 0 <= t < i ==> (#[trigger] out@[t])@ == fmul(scalar@, points@[t]@),
        decreases points.len() - i,
    {
        let scaled = points[i].times(&scalar);
        assert(fmul(points@[i as int]@, scalar@) == fmul(scalar@, points@[i as int]@)) by {
            vstd::arithmetic::mul::lemma_mul_is_commutative(
                points@[i as int]@ as int,
                scalar@ as int,
            );
        }
        out.push(scaled);
        i += 1;
    }
    assert(g1s(out@) =~= vec_scale(scalar@, g1s(points@)));
    out
}

/// Row by row, every point of a matrix over G1 multiplied by `scalar`.
pub fn scale_rows_g1(scalar: FieldElement, m: &Matrix<G1>) -> (r: Matrix<G1>)
    ensures
        g1_rows(r@) == mat_scale(scalar@, g1_rows(m@)),
        r@.len() == m@.len(),
{
    let mut out: Matrix<G1> = Vec::new();
    let mut i: usize = 0;
    while i < m.len()
        invariant
            i <= m@.len(),
            out@.len() == i,
            forall|t: int|
                0 <= t < i ==> g1s((#[trigger] out@[t])@) == vec_scale(scalar@, g1s(m@[t]@)),
        decreases m.len() - i,
    {
        out.push(scalar_vector_mul_g1(scalar, &m[i]));
        i += 1;
    }
    assert(g1_rows(out@) =~= mat_scale(scalar@, g1_rows(m@)));
    out
}

/// The entries of `a` followed by those of `b`.
pub fn concat_g2(a: &Vec<G2>, b: &Vec<G2>) -> (r: Vec<G2>)
    ensures
        r@ == a@ + b@,
        g2s(r@) == g2s(a@) + g2s(b@),
{
    let mut out: Vec<G2> = Vec::new();
    let mut j: usize = 0;
    while j < a.len()
        invariant
            j <= a@.len(),
            out@ == a@.subrange(0, j as int),
        decreases a.len() - j,
    {
        out.push(a[j]);
        assert(out@ =~= a@.subrange(0, j + 1));
        j += 1;
    }
    assert(out@ =~= a@);
    let mut j: usize = 0;
    while j < b.len()
        invariant
            j <= b@.len(),
            out@ == a@ + b@.subrange(0, j as int),
        decreases b.len() - j,
    {
        out.push(b[j]);
        assert(out@ =~= a@ + b@.subrange(0, j + 1));
        j += 1;
    }
    assert(out@ =~= a@ + b@);
    assert(g2s(out@) =~= g2s(a@) + g2s(b@));
    out
}

/// The pairs of the points of `a` with the points of `b` at the same index.
pub fn zip_pairs(a: &Vec<G1>, b: &Vec<G2>) -> (r: Vec<(G1, G2)>)
    requires
        a@.len() <= b@.len(),
    ensures
        r@.len() == a@.len(),
        crate::types::pairing_sum(r@, r@.len()) == dot(g1s(a@), g2s(b@)),
{
    let mut out: Vec<(G1, G2)> = Vec::new();
    let mut i: usize = 0;
    while i < a.len()
        invariant
            i <= a@.len(),
            a@.len() <= b@.len(),
            out@.len() == i,
            crate::types::pairing_sum(out@, i as nat) == dot_prefix(g1s(a@), g2s(b@), i as nat),
        decreases a.len() - i,
    {
        proof {
            crate::types::lemma_pairing_sum_push(out@, (a@[i as int], b@[i as int]));
        }
        out.push((a[i], b[i]));
        i += 1;
    }
    out
}

} // verus!

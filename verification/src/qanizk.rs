//! The quasi-adaptive proof that a vector of G1 points lies in the column
//! space of a public matrix, bound to a tag.

use vstd::prelude::*;
use crate::blake3::blake3_digest;
use crate::completeness::{left_pairs, lemma_proof_accepted, right_pairs};
use crate::correctness::{lemma_lift_product, lemma_lift_values};
use crate::field_utils::{
    add_rows_g1, add_rows_g2, g1_matrix_field_multiply, group_matrix_vector_mul_msm,
    lemma_g1_shape, lemma_g2_shape, lemma_product_shape, lemma_scalar_values_shape,
    lemma_scale_shape, lemma_transpose_g1, lemma_transpose_scalars, matrix_lift_g1,
    matrix_lift_g2, matrix_multiply, matrix_transpose, matrix_zero_g1, matrix_zero_g2,
    random_matrix, random_vector, rows_have, vector_add_g1,
};
use crate::hashing::{bit_values, blake3_hash_to_bits, leading_bits};
use crate::affine_mac::all_shaped;
use crate::group_ctx::GroupCtx;
use crate::math::{
    block_pairing, mat_mul, mat_scale, mat_vec, row_pairing, selected_sum, transpose, vec_add,
    vec_neg, zero_matrix,
};
use crate::types::{
    append_points, bytes_then_points, encode_points, scalar_cube, g1_pairs, g1_rows, g1s, g2_pairs, g2_rows, g2s,
    lemma_pairing_sum_push, pairing_sum, scalar_rows, scalars, FieldElement, GTElement, Matrix,
    Vector, G1, G2,
};

verus! {

/// The common reference string for one public matrix.
pub struct CRS {
    pub a_g2: Matrix<G2>,
    pub ka_g2: Matrix<G2>,
    pub b_g1: Matrix<G1>,
    pub mk_g1: Matrix<G1>,
    pub kjb_a_g2: Vec<Vec<Matrix<G2>>>,
    pub b_kjb_g1: Vec<Vec<Matrix<G1>>>,
}

/// The secret of the party that made a reference string.
pub struct Trapdoor {
    pub k_matrix: Matrix<FieldElement>,
}

/// A proof of membership.
pub struct QANIZKProof {
    pub t1_g1: Vec<G1>,
    pub u1_g1: Vec<G1>,
}

/// The proof system for witnesses of length `k` and challenges of `lambda` bits.
pub struct QANIZK {
    pub k: usize,
    pub lambda: usize,
    pub group: GroupCtx,
}

/// Each entry of the list holds two matrices of `rows` rows and `cols` columns.
pub open spec fn pairs_shaped<T>(ms: Seq<Vec<Vec<Vec<T>>>>, rows: nat, cols: nat) -> bool {
    forall|j: int| 0 <= j < ms.len() ==> (#[trigger] ms[j])@.len() == 2 && all_shaped(ms[j]@, rows, cols)
}

/// The bytes that are hashed into the challenge of a proof: the tag, then
/// the encodings of the points of `c0`, then those of `t1`.
pub open spec fn challenge_input(tag: Seq<u8>, c0: Seq<nat>, t1: Seq<nat>) -> Seq<u8> {
    tag + encode_points(c0) + encode_points(t1)
}

/// The challenge of a proof: the first `lambda` bits of the digest of the
/// tag, of `c0` and of `t1`.
pub open spec fn challenge(tag: Seq<u8>, c0: Seq<nat>, t1: Seq<nat>, lambda: nat) -> Seq<bool> {
    leading_bits(blake3_digest(challenge_input(tag, c0, t1)), lambda)
}

/// The points, or their negations.
pub open spec fn signed(points: Seq<nat>, negate: bool) -> Seq<nat> {
    if negate {
        vec_neg(points)
    } else {
        points
    }
}

/// The exponent of the product of pairings that a proof is checked by: the
/// pairings of `u1` with `a`, of the negated `c0` with `ka` and of the
/// negated `t1` with the matrix that the challenge selects.
pub open spec fn verification_exponent(
    u1: Seq<nat>,
    a: Seq<Seq<nat>>,
    c0: Seq<nat>,
    ka: Seq<Seq<nat>>,
    t1: Seq<nat>,
    k_tau_a: Seq<Seq<nat>>,
) -> nat {
    block_pairing(
        vec_neg(t1),
        k_tau_a,
        t1.len(),
        block_pairing(vec_neg(c0), ka, c0.len(), block_pairing(u1, a, u1.len(), 0)),
    )
}

/// The sum of the matrices over G1 that the bits select, one of each pair.
pub fn selected_sum_g1(
    pairs: &Vec<Vec<Matrix<G1>>>,
    tau: &Vec<bool>,
    rows: usize,
    cols: usize,
) -> (r: Matrix<G1>)
    requires
        pairs@.len() == tau@.len(),
        pairs_shaped(pairs@, rows as nat, cols as nat),
    ensures
        g1_rows(r@) == selected_sum(
            g1_pairs(pairs@),
            tau@,
            tau@.len(),
            zero_matrix(rows as nat, cols as nat),
        ),
        r@.len() == rows,
        rows_have(r@, cols as nat),
{
    let mut acc = matrix_zero_g1(rows, cols);
    proof {
        assert(g1_rows(acc@).len() == rows);
        assert forall|i: int| 0 <= i < acc@.len() implies (#[trigger] acc@[i])@.len() == cols by {
            assert(g1_rows(acc@)[i].len() == cols);
        }
    }
    let mut j: usize = 0;
    while j < tau.len()
        invariant
            j <= tau@.len(),
            pairs@.len() == tau@.len(),
            pairs_shaped(pairs@, rows as nat, cols as nat),
            acc@.len() == rows,
            rows_have(acc@, cols as nat),
            g1_rows(acc@) == selected_sum(
                g1_pairs(pairs@),
                tau@,
                j as nat,
                zero_matrix(rows as nat, cols as nat),
            ),
        decreases tau.len() - j,
    {
        let bit: usize = if tau[j] { 1 } else { 0 };
        assert(pairs@[j as int]@.len() == 2 && all_shaped(pairs@[j as int]@, rows as nat, cols as nat));
        assert(pairs@[j as int]@[bit as int]@.len() == rows);
        acc = add_rows_g1(&acc, &pairs[j][bit]);
        j += 1;
    }
    acc
}

/// The sum of the matrices over G2 that the bits select, one of each pair.
pub fn selected_sum_g2(
    pairs: &Vec<Vec<Matrix<G2>>>,
    tau: &Vec<bool>,
    rows: usize,
    cols: usize,
) -> (r: Matrix<G2>)
    requires
        pairs@.len() == tau@.len(),
        pairs_shaped(pairs@, rows as nat, cols as nat),
    ensures
        g2_rows(r@) == selected_sum(
            g2_pairs(pairs@),
            tau@,
            tau@.len(),
            zero_matrix(rows as nat, cols as nat),
        ),
        r@.len() == rows,
        rows_have(r@, cols as nat),
{
    let mut acc = matrix_zero_g2(rows, cols);
    proof {
        assert(g2_rows(acc@).len() == rows);
        assert forall|i: int| 0 <= i < acc@.len() implies (#[trigger] acc@[i])@.len() == cols by {
            assert(g2_rows(acc@)[i].len() == cols);
        }
    }
    let mut j: usize = 0;
    while j < tau.len()
        invariant
            j <= tau@.len(),
            pairs@.len() == tau@.len(),
            pairs_shaped(pairs@, rows as nat, cols as nat),
            acc@.len() == rows,
            rows_have(acc@, cols as nat),
            g2_rows(acc@) == selected_sum(
                g2_pairs(pairs@),
                tau@,
                j as nat,
                zero_matrix(rows as nat, cols as nat),
            ),
        decreases tau.len() - j,
    {
        let bit: usize = if tau[j] { 1 } else { 0 };
        assert(pairs@[j as int]@.len() == 2 && all_shaped(pairs@[j as int]@, rows as nat, cols as nat));
        assert(pairs@[j as int]@[bit as int]@.len() == rows);
        acc = add_rows_g2(&acc, &pairs[j][bit]);
        j += 1;
    }
    acc
}

/// Appends to `pairs`, for each point, its pairing partners: the point, or
/// its negation, with every entry of the row of its index.
pub fn push_block(pairs: &mut Vec<(G1, G2)>, points: &Vec<G1>, matrix: &Matrix<G2>, negate: bool)
    requires
        matrix@.len() == points@.len(),
    ensures
        pairing_sum(final(pairs)@, final(pairs)@.len()) == block_pairing(
            signed(g1s(points@), negate),
            g2_rows(matrix@),
            points@.len(),
            pairing_sum(old(pairs)@, old(pairs)@.len()),
        ),
        final(pairs)@.len() >= old(pairs)@.len(),
        points@.len() > 0 && matrix@[0]@.len() > 0 ==> final(pairs)@.len() > 0,
{
    let ghost start = pairing_sum(pairs@, pairs@.len());
    let ghost before = pairs@.len();
    let mut i: usize = 0;
    while i < points.len()
        invariant
            i <= points@.len(),
            matrix@.len() == points@.len(),
            pairs@.len() >= before,
            i > 0 && matrix@[0]@.len() > 0 ==> pairs@.len() > 0,
            pairing_sum(pairs@, pairs@.len()) == block_pairing(
                signed(g1s(points@), negate),
                g2_rows(matrix@),
                i as nat,
                start,
            ),
        decreases points.len() - i,
    {
        let point = if negate { points[i].negated() } else { points[i] };
        assert(point@ == signed(g1s(points@), negate)[i as int]);
        let ghost row_start = pairing_sum(pairs@, pairs@.len());
        let mut c: usize = 0;
        while c < matrix[i].len()
            invariant
                i < matrix@.len(),
                c <= matrix@[i as int]@.len(),
                pairs@.len() >= before,
                c > 0 ==> pairs@.len() > 0,
                i > 0 && matrix@[0]@.len() > 0 ==> pairs@.len() > 0,
                pairing_sum(pairs@, pairs@.len()) == row_pairing(
                    point@,
                    g2s(matrix@[i as int]@),
                    c as nat,
                    row_start,
                ),
            decreases matrix@[i as int]@.len() - c,
        {
            proof {
                lemma_pairing_sum_push(pairs@, (point, matrix@[i as int]@[c as int]));
            }
            pairs.push((point, matrix[i][c]));
            c += 1;
        }
        assert(g2_rows(matrix@)[i as int] == g2s(matrix@[i as int]@));
        i += 1;
    }
}

impl CRS {
    /// The reference string has the dimensions that `k` and `lambda` ask for,
    /// for a public matrix of `n` rows and `c` columns.
    pub open spec fn fits(&self, k: nat, lambda: nat, n: nat, c: nat) -> bool {
        &&& self.a_g2@.len() == k + 1
        &&& rows_have(self.a_g2@, k)
        &&& self.ka_g2@.len() == n
        &&& rows_have(self.ka_g2@, k)
        &&& self.b_g1@.len() == k
        &&& rows_have(self.b_g1@, k)
        &&& self.mk_g1@.len() == c
        &&& rows_have(self.mk_g1@, k + 1)
        &&& self.kjb_a_g2@.len() == lambda
        &&& pairs_shaped(self.kjb_a_g2@, k, k)
        &&& self.b_kjb_g1@.len() == lambda
        &&& pairs_shaped(self.b_kjb_g1@, k, k + 1)
    }
}

impl QANIZK {
    /// The dimensions fit the machine and the hash, and the group context is
    /// the standard one.
    pub open spec fn valid(&self) -> bool {
        &&& 1 <= self.k < usize::MAX
        &&& 1 <= self.lambda <= 256
        &&& self.group.is_standard()
    }

    /// The reference string is the one that the matrices `a`, `b`, `k_matrix`
    /// and the per-bit matrices `kjb` give for the public matrix `m`.
    pub open spec fn is_crs(
        &self,
        crs: &CRS,
        m: Seq<Seq<nat>>,
        a: Seq<Vec<FieldElement>>,
        b: Seq<Vec<FieldElement>>,
        k_matrix: Seq<Vec<FieldElement>>,
        kjb: Seq<Vec<Matrix<FieldElement>>>,
    ) -> bool {
        let g1 = self.group.g1@;
        let g2 = self.group.g2@;
        let k = self.k as nat;
        &&& g2_rows(crs.a_g2@) == mat_scale(g2, scalar_rows(a))
        &&& g2_rows(crs.ka_g2@) == mat_scale(g2, mat_mul(scalar_rows(k_matrix), scalar_rows(a), k))
        &&& g1_rows(crs.b_g1@) == mat_scale(g1, scalar_rows(b))
        &&& g1_rows(crs.mk_g1@) == mat_mul(
            transpose(m, m[0].len()),
            scalar_rows(k_matrix),
            k + 1,
        )
        &&& crs.kjb_a_g2@.len() == self.lambda
        &&& crs.b_kjb_g1@.len() == self.lambda
        &&& forall|j: int|
            0 <= j < self.lambda ==> self.is_crs_pair(
                (#[trigger] crs.kjb_a_g2@[j])@,
                crs.b_kjb_g1@[j]@,
                kjb[j]@,
                a,
                b,
            )
    }

    /// The two lifted matrices are the ones that the per-bit matrix `kjb`
    /// gives with `a` and `b`.
    pub open spec fn is_crs_entry(
        &self,
        kjb_a_g2: Matrix<G2>,
        b_kjb_g1: Matrix<G1>,
        kjb: Matrix<FieldElement>,
        a: Seq<Vec<FieldElement>>,
        b: Seq<Vec<FieldElement>>,
    ) -> bool {
        let k = self.k as nat;
        &&& g2_rows(kjb_a_g2@) == mat_scale(
            self.group.g2@,
            mat_mul(scalar_rows(kjb@), scalar_rows(a), k),
        )
        &&& g1_rows(b_kjb_g1@) == mat_scale(
            self.group.g1@,
            mat_mul(transpose(scalar_rows(b), k), scalar_rows(kjb@), k + 1),
        )
    }

    /// The entries of the reference string for one bit of the challenge are
    /// the ones that the two matrices of that bit give.
    pub open spec fn is_crs_pair(
        &self,
        kjb_a_g2: Seq<Matrix<G2>>,
        b_kjb_g1: Seq<Matrix<G1>>,
        kjb: Seq<Matrix<FieldElement>>,
        a: Seq<Vec<FieldElement>>,
        b: Seq<Vec<FieldElement>>,
    ) -> bool {
        &&& kjb_a_g2.len() == 2
        &&& b_kjb_g1.len() == 2
        &&& self.is_crs_entry(kjb_a_g2[0], b_kjb_g1[0], kjb[0], a, b)
        &&& self.is_crs_entry(kjb_a_g2[1], b_kjb_g1[1], kjb[1], a, b)
    }

    /// The reference string is the one that some matrices of the right
    /// dimensions and the trapdoor give for the public matrix `m`.
    pub open spec fn is_some_crs(&self, crs: &CRS, m: Seq<Seq<nat>>, trapdoor: &Trapdoor) -> bool {
        exists|a: Seq<Vec<FieldElement>>, b: Seq<Vec<FieldElement>>, kjb: Seq<Vec<Matrix<FieldElement>>>|
            randomness_fits(
                a,
                b,
                trapdoor.k_matrix@,
                kjb,
                self.k as nat,
                self.lambda as nat,
                m.len(),
            ) && self.is_crs(crs, m, a, b, trapdoor.k_matrix@, kjb)
    }

    /// A proof system of the given dimensions over the groups of BLS12-381.
    pub fn new(k: usize, lambda: usize) -> (r: Self)
        requires
            1 <= k < usize::MAX,
            1 <= lambda <= 256,
        ensures
            r.k == k,
            r.lambda == lambda,
            r.valid(),
    {
        QANIZK { k, lambda, group: GroupCtx::bls12_381() }
    }

    /// The two lifted products that one per-bit matrix contributes to the
    /// reference string.
    fn crs_entry(
        &self,
        a: &Matrix<FieldElement>,
        b: &Matrix<FieldElement>,
        b_transposed: &Matrix<FieldElement>,
        kjb: &Matrix<FieldElement>,
    ) -> (r: (Matrix<G2>, Matrix<G1>))
        requires
            self.valid(),
            a@.len() == self.k + 1,
            rows_have(a@, self.k as nat),
            scalar_rows(b_transposed@) == transpose(scalar_rows(b@), self.k as nat),
            b_transposed@.len() == self.k,
            rows_have(b_transposed@, self.k as nat),
            kjb@.len() == self.k,
            rows_have(kjb@, (self.k + 1) as nat),
        ensures
            g2_rows(r.0@) == mat_scale(
                self.group.g2@,
                mat_mul(scalar_rows(kjb@), scalar_rows(a@), self.k as nat),
            ),
            g1_rows(r.1@) == mat_scale(
                self.group.g1@,
                mat_mul(
                    transpose(scalar_rows(b@), self.k as nat),
                    scalar_rows(kjb@),
                    (self.k + 1) as nat,
                ),
            ),
            r.0@.len() == self.k,
            rows_have(r.0@, self.k as nat),
            r.1@.len() == self.k,
            rows_have(r.1@, (self.k + 1) as nat),
    {
        let kjb_a = matrix_multiply(kjb, a);
        let kjb_a_g2 = matrix_lift_g2(&kjb_a, &self.group);
        let b_kjb = matrix_multiply(b_transposed, kjb);
        let b_kjb_g1 = matrix_lift_g1(&b_kjb, &self.group);
        proof {
            let k = self.k as nat;
            lemma_product_shape(scalar_rows(kjb@), scalar_rows(a@), k);
            lemma_scale_shape(
                self.group.g2@,
                mat_mul(scalar_rows(kjb@), scalar_rows(a@), k),
                k,
                k,
            );
            lemma_g2_shape(kjb_a_g2@, k, k);
            lemma_product_shape(scalar_rows(b_transposed@), scalar_rows(kjb@), k + 1);
            lemma_scale_shape(
                self.group.g1@,
                mat_mul(scalar_rows(b_transposed@), scalar_rows(kjb@), k + 1),
                k,
                k + 1,
            );
            lemma_g1_shape(b_kjb_g1@, k, k + 1);
        }
        (kjb_a_g2, b_kjb_g1)
    }

    /// The reference string and the trapdoor that the given matrices give for
    /// the public matrix.
    pub fn crs_from(
        &self,
        m1_matrix: &Matrix<G1>,
        a_matrix: &Matrix<FieldElement>,
        b_matrix: &Matrix<FieldElement>,
        k_matrix: Matrix<FieldElement>,
        kjb: &Vec<Vec<Matrix<FieldElement>>>,
    ) -> (r: (CRS, Trapdoor))
        requires
            self.valid(),
            m1_matrix@.len() > 0,
            m1_matrix@[0]@.len() > 0,
            rows_have(m1_matrix@, m1_matrix@[0]@.len()),
            a_matrix@.len() == self.k + 1,
            rows_have(a_matrix@, self.k as nat),
            b_matrix@.len() == self.k,
            rows_have(b_matrix@, self.k as nat),
            k_matrix@.len() == m1_matrix@.len(),
            rows_have(k_matrix@, (self.k + 1) as nat),
            kjb@.len() == self.lambda,
            pairs_shaped(kjb@, self.k as nat, (self.k + 1) as nat),
        ensures
            self.is_crs(&r.0, g1_rows(m1_matrix@), a_matrix@, b_matrix@, k_matrix@, kjb@),
            r.1.k_matrix@ == k_matrix@,
            r.0.fits(
                self.k as nat,
                self.lambda as nat,
                m1_matrix@.len(),
                m1_matrix@[0]@.len(),
            ),
    {
        let ghost k = self.k as nat;
        let a_g2 = matrix_lift_g2(a_matrix, &self.group);
        let ka_matrix = matrix_multiply(&k_matrix, a_matrix);
        let ka_g2 = matrix_lift_g2(&ka_matrix, &self.group);
        let b_g1 = matrix_lift_g1(b_matrix, &self.group);
        let m_transpose_matrix = matrix_transpose(m1_matrix);
        let mk_g1 = g1_matrix_field_multiply(&m_transpose_matrix, &k_matrix);
        let b_transposed = matrix_transpose(b_matrix);
        proof {
            lemma_transpose_g1(m1_matrix@, m_transpose_matrix@, m1_matrix@[0]@.len());
            lemma_transpose_scalars(b_matrix@, b_transposed@, k);
            lemma_scalar_values_shape(a_matrix@, k);
            lemma_scale_shape(self.group.g2@, scalar_rows(a_matrix@), k + 1, k);
            lemma_g2_shape(a_g2@, k + 1, k);
            lemma_product_shape(scalar_rows(k_matrix@), scalar_rows(a_matrix@), k);
            lemma_scale_shape(
                self.group.g2@,
                mat_mul(scalar_rows(k_matrix@), scalar_rows(a_matrix@), k),
                k_matrix@.len(),
                k,
            );
            lemma_g2_shape(ka_g2@, k_matrix@.len(), k);
            lemma_scalar_values_shape(b_matrix@, k);
            lemma_scale_shape(self.group.g1@, scalar_rows(b_matrix@), k, k);
            lemma_g1_shape(b_g1@, k, k);
            lemma_product_shape(
                g1_rows(m_transpose_matrix@),
                scalar_rows(k_matrix@),
                k + 1,
            );
            lemma_g1_shape(mk_g1@, m1_matrix@[0]@.len(), k + 1);
        }
        let mut kjb_a_g2: Vec<Vec<Matrix<G2>>> = Vec::new();
        let mut b_kjb_g1: Vec<Vec<Matrix<G1>>> = Vec::new();
        let mut j: usize = 0;
        while j < self.lambda
            invariant
                self.valid(),
                k == self.k,
                j <= self.lambda,
                a_matrix@.len() == self.k + 1,
                rows_have(a_matrix@, k),
                scalar_rows(b_transposed@) == transpose(scalar_rows(b_matrix@), k),
                b_transposed@.len() == self.k,
                rows_have(b_transposed@, k),
                kjb@.len() == self.lambda,
                pairs_shaped(kjb@, k, k + 1),
                kjb_a_g2@.len() == j,
                b_kjb_g1@.len() == j,
                pairs_shaped(kjb_a_g2@, k, k),
                pairs_shaped(b_kjb_g1@, k, k + 1),
                forall|t: int|
                    0 <= t < j ==> self.is_crs_pair(
                        (#[trigger] kjb_a_g2@[t])@,
                        b_kjb_g1@[t]@,
                        kjb@[t]@,
                        a_matrix@,
                        b_matrix@,
                    ),
            decreases self.lambda - j,
        {
            assert(kjb@[j as int]@.len() == 2 && all_shaped(kjb@[j as int]@, k, k + 1));
            let zero = self.crs_entry(a_matrix, b_matrix, &b_transposed, &kjb[j][0]);
            let one = self.crs_entry(a_matrix, b_matrix, &b_transposed, &kjb[j][1]);
            let mut kjb_row_a: Vec<Matrix<G2>> = Vec::new();
            let mut b_kjb_row: Vec<Matrix<G1>> = Vec::new();
            kjb_row_a.push(zero.0);
            kjb_row_a.push(one.0);
            b_kjb_row.push(zero.1);
            b_kjb_row.push(one.1);
            assert(self.is_crs_pair(
                kjb_row_a@,
                b_kjb_row@,
                kjb@[j as int]@,
                a_matrix@,
                b_matrix@,
            ));
            assert(all_shaped(kjb_row_a@, k, k));
            assert(all_shaped(b_kjb_row@, k, k + 1));
            kjb_a_g2.push(kjb_row_a);
            b_kjb_g1.push(b_kjb_row);
            j += 1;
        }
        let crs = CRS { a_g2, ka_g2, b_g1, mk_g1, kjb_a_g2, b_kjb_g1 };
        let trapdoor = Trapdoor { k_matrix };
        (crs, trapdoor)
    }

    /// Fresh per-bit matrices: two for each of the `lambda` bits.
    fn random_pairs(&self) -> (r: Vec<Vec<Matrix<FieldElement>>>)
        requires
            self.valid(),
        ensures
            r@.len() == self.lambda,
            pairs_shaped(r@, self.k as nat, (self.k + 1) as nat),
    {
        let mut out: Vec<Vec<Matrix<FieldElement>>> = Vec::new();
        let mut j: usize = 0;
        while j < self.lambda
            invariant
                self.valid(),
                j <= self.lambda,
                out@.len() == j,
                pairs_shaped(out@, self.k as nat, (self.k + 1) as nat),
            decreases self.lambda - j,
        {
            let mut pair: Vec<Matrix<FieldElement>> = Vec::new();
            pair.push(random_matrix(self.k, self.k + 1));
            pair.push(random_matrix(self.k, self.k + 1));
            out.push(pair);
            j += 1;
        }
        out
    }

    /// A fresh reference string for the public matrix, and its trapdoor.
    pub fn gen_crs(&self, m1_matrix: &Matrix<G1>) -> (r: (CRS, Trapdoor))
        requires
            self.valid(),
            m1_matrix@.len() > 0,
            m1_matrix@[0]@.len() > 0,
            rows_have(m1_matrix@, m1_matrix@[0]@.len()),
        ensures
            self.is_some_crs(&r.0, g1_rows(m1_matrix@), &r.1),
            r.0.fits(
                self.k as nat,
                self.lambda as nat,
                m1_matrix@.len(),
                m1_matrix@[0]@.len(),
            ),
    {
        let a_matrix = random_matrix(self.k + 1, self.k);
        let b_matrix = random_matrix(self.k, self.k);
        let k_matrix = random_matrix(m1_matrix.len(), self.k + 1);
        let kjb = self.random_pairs();
        let r = self.crs_from(m1_matrix, &a_matrix, &b_matrix, k_matrix, &kjb);
        assert(randomness_fits(
            a_matrix@,
            b_matrix@,
            r.1.k_matrix@,
            kjb@,
            self.k as nat,
            self.lambda as nat,
            g1_rows(m1_matrix@).len(),
        ) && self.is_crs(&r.0, g1_rows(m1_matrix@), a_matrix@, b_matrix@, r.1.k_matrix@, kjb@));
        r
    }

    /// The proof is the one that the witness `r` and the randomness `s` give
    /// for `c0` under the tag.
    pub open spec fn is_proof(
        &self,
        crs: &CRS,
        tag: Seq<u8>,
        c0: Seq<G1>,
        r: Seq<FieldElement>,
        s: Seq<FieldElement>,
        proof: &QANIZKProof,
    ) -> bool {
        let k = self.k as nat;
        let t1 = mat_vec(g1_rows(crs.b_g1@), scalars(s));
        let tau = challenge(tag, g1s(c0), t1, self.lambda as nat);
        let selected = selected_sum(
            g1_pairs(crs.b_kjb_g1@),
            tau,
            self.lambda as nat,
            zero_matrix(k, k + 1),
        );
        &&& g1s(proof.t1_g1@) == t1
        &&& g1s(proof.u1_g1@) == vec_add(
            mat_vec(transpose(g1_rows(crs.mk_g1@), k + 1), scalars(r)),
            mat_vec(transpose(selected, k + 1), scalars(s)),
        )
    }

    /// The proof satisfies the pairing equation for `c0` under the tag.
    pub open spec fn accepts(&self, crs: &CRS, tag: Seq<u8>, c0: Seq<G1>, proof: &QANIZKProof) -> bool {
        let k = self.k as nat;
        let tau = challenge(tag, g1s(c0), g1s(proof.t1_g1@), self.lambda as nat);
        verification_exponent(
            g1s(proof.u1_g1@),
            g2_rows(crs.a_g2@),
            g1s(c0),
            g2_rows(crs.ka_g2@),
            g1s(proof.t1_g1@),
            selected_sum(g2_pairs(crs.kjb_a_g2@), tau, self.lambda as nat, zero_matrix(k, k)),
        ) == 0
    }

    /// The bytes that are hashed into the challenge.
    pub fn hash_tag_c0_t1(&self, tag: &[u8], c0_g1: &Vec<G1>, t1: &Vec<G1>) -> (r: Vec<u8>)
        ensures
            r@ == challenge_input(tag@, g1s(c0_g1@), g1s(t1@)),
    {
        let mut input = bytes_then_points(tag, c0_g1);
        append_points(&mut input, t1);
        input
    }

    /// The challenge bits of a proof.
    fn challenge_bits(&self, tag: &[u8], c0_g1: &Vec<G1>, t1: &Vec<G1>) -> (r: Vec<bool>)
        requires
            self.valid(),
        ensures
            r@ == challenge(tag@, g1s(c0_g1@), g1s(t1@), self.lambda as nat),
    {
        let hash_input = self.hash_tag_c0_t1(tag, c0_g1, t1);
        let tau = blake3_hash_to_bits(hash_input.as_slice(), self.lambda);
        bit_values(&tau)
    }

    /// The randomness `s` times the sum of the matrices that the challenge
    /// selects.
    pub fn compute_s_times_b_k_tau(
        &self,
        s: &Vector,
        b_kjb_g1: &Vec<Vec<Matrix<G1>>>,
        tau: &Vec<bool>,
    ) -> (r: Vec<G1>)
        requires
            self.valid(),
            b_kjb_g1@.len() == tau@.len(),
            pairs_shaped(b_kjb_g1@, self.k as nat, (self.k + 1) as nat),
        ensures
            g1s(r@) == mat_vec(
                transpose(
                    selected_sum(
                        g1_pairs(b_kjb_g1@),
                        tau@,
                        tau@.len(),
                        zero_matrix(self.k as nat, (self.k + 1) as nat),
                    ),
                    (self.k + 1) as nat,
                ),
                scalars(s@),
            ),
    {
        let selected = selected_sum_g1(b_kjb_g1, tau, self.k, self.k + 1);
        let columns = matrix_transpose(&selected);
        proof {
            lemma_transpose_g1(selected@, columns@, (self.k + 1) as nat);
        }
        group_matrix_vector_mul_msm(&columns, s)
    }

    /// The proof for `c0` under the tag, made from the witness `r` with the
    /// randomness `s`.
    pub fn prove_with(
        &self,
        crs: &CRS,
        tag: &[u8],
        c0_g1: &Vec<G1>,
        r: &Vector,
        s: &Vector,
    ) -> (proof: QANIZKProof)
        requires
            self.valid(),
            crs.mk_g1@.len() > 0,
            rows_have(crs.mk_g1@, (self.k + 1) as nat),
            crs.b_kjb_g1@.len() == self.lambda,
            pairs_shaped(crs.b_kjb_g1@, self.k as nat, (self.k + 1) as nat),
        ensures
            self.is_proof(crs, tag@, c0_g1@, r@, s@, &proof),
    {
        let t1_g1 = group_matrix_vector_mul_msm(&crs.b_g1, s);
        let tau = self.challenge_bits(tag, c0_g1, &t1_g1);
        let mk_g1_transpose = matrix_transpose(&crs.mk_g1);
        proof {
            lemma_transpose_g1(crs.mk_g1@, mk_g1_transpose@, (self.k + 1) as nat);
        }
        let r_mk = group_matrix_vector_mul_msm(&mk_g1_transpose, r);
        let s_b_k_tau = self.compute_s_times_b_k_tau(s, &crs.b_kjb_g1, &tau);
        let u1_g1 = vector_add_g1(&r_mk, &s_b_k_tau);
        QANIZKProof { t1_g1, u1_g1 }
    }

    /// A proof for `c0` under the tag, made from the witness `r` with fresh
    /// randomness.
    pub fn prove(&self, crs: &CRS, tag: &[u8], c0_g1: &Vec<G1>, r: &Vector) -> (proof: QANIZKProof)
        requires
            self.valid(),
            crs.mk_g1@.len() > 0,
            rows_have(crs.mk_g1@, (self.k + 1) as nat),
            crs.b_kjb_g1@.len() == self.lambda,
            pairs_shaped(crs.b_kjb_g1@, self.k as nat, (self.k + 1) as nat),
        ensures
            exists|s: Seq<FieldElement>|
                s.len() == self.k && self.is_proof(crs, tag@, c0_g1@, r@, s, &proof),
    {
        let s = random_vector(self.k);
        let proof = self.prove_with(crs, tag, c0_g1, r, &s);
        assert(s@.len() == self.k && self.is_proof(crs, tag@, c0_g1@, r@, s@, &proof));
        proof
    }

    /// Whether the proof satisfies the pairing equation for `c0` under the tag.
    pub fn verify(&self, crs: &CRS, tag: &[u8], c0_g1: &Vec<G1>, pi: &QANIZKProof) -> (r: bool)
        requires
            self.valid(),
            pi.u1_g1@.len() == self.k + 1,
            pi.t1_g1@.len() == self.k,
            c0_g1@.len() == crs.ka_g2@.len(),
            crs.a_g2@.len() == self.k + 1,
            crs.a_g2@[0]@.len() == self.k,
            crs.kjb_a_g2@.len() == self.lambda,
            pairs_shaped(crs.kjb_a_g2@, self.k as nat, self.k as nat),
        ensures
            r == self.accepts(crs, tag@, c0_g1@, pi),
    {
        let tau = self.challenge_bits(tag, c0_g1, &pi.t1_g1);
        let k_tau_a = selected_sum_g2(&crs.kjb_a_g2, &tau, self.k, self.k);
        let mut all_pairings: Vec<(G1, G2)> = Vec::new();
        push_block(&mut all_pairings, &pi.u1_g1, &crs.a_g2, false);
        push_block(&mut all_pairings, c0_g1, &crs.ka_g2, true);
        push_block(&mut all_pairings, &pi.t1_g1, &k_tau_a, true);
        let product = self.group.multi_pairing(all_pairings.as_slice());
        product.same(&GTElement::one())
    }
}

/// The values of the per-bit matrices of a reference string.
pub open spec fn per_bit_values(kjb: Seq<Vec<Matrix<FieldElement>>>) -> Seq<Seq<Seq<Seq<nat>>>> {
    Seq::new(kjb.len(), |j: int| scalar_cube(kjb[j]@))
}

/// The matrices that a reference string is made from have the dimensions
/// that `k` and `lambda` ask for, for a public matrix of `n` rows and `c`
/// columns.
pub open spec fn crs_inputs_fit(
    m: Seq<Vec<G1>>,
    a: Seq<Vec<FieldElement>>,
    b: Seq<Vec<FieldElement>>,
    k_matrix: Seq<Vec<FieldElement>>,
    kjb: Seq<Vec<Matrix<FieldElement>>>,
    k: nat,
    lambda: nat,
    n: nat,
    c: nat,
) -> bool {
    &&& n > 0
    &&& c > 0
    &&& m.len() == n
    &&& rows_have(m, c)
    &&& randomness_fits(a, b, k_matrix, kjb, k, lambda, n)
}

/// The random matrices of a reference string have the dimensions that `k`
/// and `lambda` ask for, for a public matrix of `n` rows.
pub open spec fn randomness_fits(
    a: Seq<Vec<FieldElement>>,
    b: Seq<Vec<FieldElement>>,
    k_matrix: Seq<Vec<FieldElement>>,
    kjb: Seq<Vec<Matrix<FieldElement>>>,
    k: nat,
    lambda: nat,
    n: nat,
) -> bool {
    &&& a.len() == k + 1
    &&& rows_have(a, k)
    &&& b.len() == k
    &&& rows_have(b, k)
    &&& k_matrix.len() == n
    &&& rows_have(k_matrix, k + 1)
    &&& kjb.len() == lambda
    &&& pairs_shaped(kjb, k, k + 1)
}

/// Completeness: a proof made by `prove` from a witness `r` for the vector
/// `c0 = M·r` is accepted by `verify`, under the reference string of `M`
/// and the tag that it was made for, whatever the tag and the randomness.
pub proof fn lemma_proof_verifies(
    system: QANIZK,
    crs: CRS,
    m: Seq<Vec<G1>>,
    a: Seq<Vec<FieldElement>>,
    b: Seq<Vec<FieldElement>>,
    k_matrix: Seq<Vec<FieldElement>>,
    kjb: Seq<Vec<Matrix<FieldElement>>>,
    tag: Seq<u8>,
    c0: Seq<G1>,
    r: Seq<FieldElement>,
    s: Seq<FieldElement>,
    proof: QANIZKProof,
    n: nat,
    c: nat,
)
    requires
        system.valid(),
        crs_inputs_fit(m, a, b, k_matrix, kjb, system.k as nat, system.lambda as nat, n, c),
        system.is_crs(&crs, g1_rows(m), a, b, k_matrix, kjb),
        r.len() == c,
        s.len() == system.k,
        g1s(c0) == mat_vec(g1_rows(m), scalars(r)),
        system.is_proof(&crs, tag, c0, r, s, &proof),
    ensures
        system.accepts(&crs, tag, c0, &proof),
        proof.t1_g1@.len() == system.k,
        proof.u1_g1@.len() == system.k + 1,
        c0.len() == n,
{
    let k = system.k as nat;
    let lambda = system.lambda as nat;
    let mg = g1_rows(m);
    let av = scalar_rows(a);
    let bv = scalar_rows(b);
    let kk = scalar_rows(k_matrix);
    let kv = per_bit_values(kjb);
    lemma_scalar_values_shape(a, k);
    lemma_scalar_values_shape(b, k);
    lemma_scalar_values_shape(k_matrix, k + 1);
    assert forall|i: int| 0 <= i < n implies (#[trigger] mg[i]).len() == c by {
        assert(m[i]@.len() == c);
    }
    assert forall|j: int, bit: int| 0 <= j < kv.len() && 0 <= bit < 2 implies crate::math::has_shape(
        #[trigger] kv[j][bit],
        k,
        k + 1,
    ) by {
        assert(kjb[j]@.len() == 2 && all_shaped(kjb[j]@, k, k + 1));
        assert(kjb[j]@[bit]@.len() == k && rows_have(kjb[j]@[bit]@, k + 1));
        lemma_scalar_values_shape(kjb[j]@[bit]@, k + 1);
    }
    lemma_lift_values(a);
    lemma_lift_values(b);
    lemma_lift_product(kk, av, k);
    assert forall|j: int| 0 <= j < lambda implies g1_pairs(crs.b_kjb_g1@)[j] == left_pairs(
        bv,
        kv,
        k,
    )[j] && g2_pairs(crs.kjb_a_g2@)[j] == right_pairs(av, kv, k)[j] by {
        assert(system.is_crs_pair(
            crs.kjb_a_g2@[j]@,
            crs.b_kjb_g1@[j]@,
            kjb[j]@,
            a,
            b,
        ));
        lemma_lift_product(transpose(bv, k), kv[j][0], k + 1);
        lemma_lift_product(transpose(bv, k), kv[j][1], k + 1);
        lemma_lift_product(kv[j][0], av, k);
        lemma_lift_product(kv[j][1], av, k);
        assert(g1_pairs(crs.b_kjb_g1@)[j] =~= left_pairs(bv, kv, k)[j]);
        assert(g2_pairs(crs.kjb_a_g2@)[j] =~= right_pairs(av, kv, k)[j]);
    }
    assert(g1_pairs(crs.b_kjb_g1@) =~= left_pairs(bv, kv, k));
    assert(g2_pairs(crs.kjb_a_g2@) =~= right_pairs(av, kv, k));
    let tau = challenge(tag, g1s(c0), mat_vec(bv, scalars(s)), lambda);
    lemma_proof_accepted(mg, av, bv, kk, kv, tau, scalars(r), scalars(s), k, n, c);
    assert(mg[0].len() == c);
}

} // verus!

//! The affine MAC: a tag is a linear function of the secret key, of fresh
//! randomness and of the coefficients that encode the message.

use vstd::prelude::*;
use crate::f_functions::{affine_sum, constant_sum, f_i, f_prime_i};
use crate::field_utils::{
    matrix_vector_mul, matrix_vector_mul_g2, random_matrix, random_vector, rows_have,
    scalar_vector_mul, scalar_vector_mul_g2, vector_add, vector_add_g2, vector_lift_g2,
    vector_zero, vector_zero_g2,
};
use crate::group_ctx::GroupCtx;
use crate::math::{
    lemma_mat_scale_one, lemma_mat_vec_canonical, lemma_scale_one, mat_scale, mat_vec, vec_scale,
    zeros,
};
use crate::types::{
    g2s, lemma_scalars_canonical, scalar_cube, scalar_rows, scalars,
    FieldElement, Matrix, Vector, G2,
};

verus! {

/// The secret key of the MAC.
pub struct SecretKey {
    pub b: Matrix<FieldElement>,
    pub x_matrices: Vec<Matrix<FieldElement>>,
    pub x_prime: Vec<Vector>,
}

/// A tag: the two vectors `T` and `U` lifted into G2, and `T` in the field.
pub struct Tag {
    pub t_g2: Vec<G2>,
    pub u_g2: Vec<G2>,
    pub t_field: Vector,
}

/// The MAC for keys of dimension `k` and for `l + 1` message indices and
/// `l_prime + 1` constant-term indices.
pub struct AffineMAC {
    pub k: usize,
    pub l: usize,
    pub l_prime: usize,
    pub group: GroupCtx,
}

/// Every matrix of the list has `rows` rows of `cols` entries.
pub open spec fn all_shaped<T>(ms: Seq<Vec<Vec<T>>>, rows: nat, cols: nat) -> bool {
    forall|i: int|
        0 <= i < ms.len() ==> (#[trigger] ms[i])@.len() == rows && rows_have(ms[i]@, cols)
}

/// The vector `U` of a tag whose vector `T` is `t`: the sum of the
/// message-dependent terms, then of the constant terms, starting from zero.
pub open spec fn mac_value(
    x_matrices: Seq<Seq<Seq<nat>>>,
    constants: Seq<Seq<nat>>,
    k: nat,
    l: nat,
    l_prime: nat,
    message: Seq<u8>,
    t: Seq<nat>,
) -> Seq<nat> {
    constant_sum(
        constants,
        l_prime + 1,
        affine_sum(x_matrices, l, message, t, l + 1, zeros(2 * k)),
    )
}

impl SecretKey {
    /// The key has the dimensions that `(k, l, l_prime)` ask for.
    pub open spec fn fits(&self, k: nat, l: nat, l_prime: nat) -> bool {
        &&& self.b@.len() == k
        &&& rows_have(self.b@, k)
        &&& self.x_matrices@.len() == l + 1
        &&& all_shaped(self.x_matrices@, 2 * k, k)
        &&& self.x_prime@.len() == l_prime + 1
        &&& rows_have(self.x_prime@, 2 * k)
    }
}

/// The terms of a tag that depend on the message: for each index whose
/// coefficient is not zero, the coefficient times the matrix of that index
/// times `t`, added to `start`.
pub fn affine_combination(
    matrices: &Vec<Matrix<FieldElement>>,
    l: usize,
    message: &[u8],
    t: &Vector,
    start: Vector,
) -> (r: Vector)
    requires
        l < usize::MAX,
        matrices@.len() == l + 1,
    ensures
        scalars(r@) == affine_sum(
            scalar_cube(matrices@),
            l as nat,
            message@,
            scalars(t@),
            (l + 1) as nat,
            scalars(start@),
        ),
{
    let ghost begin = scalars(start@);
    let mut acc = start;
    let mut i: usize = 0;
    while i <= l
        invariant
            i <= l + 1,
            l < usize::MAX,
            matrices@.len() == l + 1,
            scalars(acc@) == affine_sum(
                scalar_cube(matrices@),
                l as nat,
                message@,
                scalars(t@),
                i as nat,
                begin,
            ),
        decreases l + 1 - i,
    {
        let fi = f_i(i, l, message);
        if !fi.is_zero() {
            let product = matrix_vector_mul(&matrices[i], t);
            let scaled = scalar_vector_mul(fi, &product);
            acc = vector_add(&acc, &scaled);
        }
        i += 1;
    }
    acc
}

/// The constant terms of a tag: for each constant-term index whose
/// coefficient is not zero, the coefficient times the vector of that index,
/// added to `start`.
pub fn constant_combination(vectors: &Vec<Vector>, l_prime: usize, start: Vector) -> (r: Vector)
    requires
        l_prime < usize::MAX,
        vectors@.len() == l_prime + 1,
    ensures
        scalars(r@) == constant_sum(
            scalar_rows(vectors@),
            (l_prime + 1) as nat,
            scalars(start@),
        ),
{
    let ghost begin = scalars(start@);
    let mut acc = start;
    let mut i: usize = 0;
    while i <= l_prime
        invariant
            i <= l_prime + 1,
            l_prime < usize::MAX,
            vectors@.len() == l_prime + 1,
            scalars(acc@) == constant_sum(scalar_rows(vectors@), i as nat, begin),
        decreases l_prime + 1 - i,
    {
        let fi = f_prime_i(i);
        if !fi.is_zero() {
            let scaled = scalar_vector_mul(fi, &vectors[i]);
            acc = vector_add(&acc, &scaled);
        }
        i += 1;
    }
    acc
}

/// The message-dependent terms of a tag, computed in G2 from the lifted `T`.
pub fn affine_combination_g2(
    matrices: &Vec<Matrix<FieldElement>>,
    l: usize,
    message: &[u8],
    t_g2: &Vec<G2>,
    start: Vec<G2>,
) -> (r: Vec<G2>)
    requires
        l < usize::MAX,
        matrices@.len() == l + 1,
    ensures
        g2s(r@) == affine_sum(
            scalar_cube(matrices@),
            l as nat,
            message@,
            g2s(t_g2@),
            (l + 1) as nat,
            g2s(start@),
        ),
{
    let ghost begin = g2s(start@);
    let mut acc = start;
    let mut i: usize = 0;
    while i <= l
        invariant
            i <= l + 1,
            l < usize::MAX,
            matrices@.len() == l + 1,
            g2s(acc@) == affine_sum(
                scalar_cube(matrices@),
                l as nat,
                message@,
                g2s(t_g2@),
                i as nat,
                begin,
            ),
        decreases l + 1 - i,
    {
        let fi = f_i(i, l, message);
        if !fi.is_zero() {
            let product = matrix_vector_mul_g2(&matrices[i], t_g2);
            let scaled = scalar_vector_mul_g2(fi, &product);
            acc = vector_add_g2(&acc, &scaled);
        }
        i += 1;
    }
    acc
}

/// The constant terms of a tag, lifted into G2 and added to `start`.
pub fn constant_combination_g2(
    vectors: &Vec<Vector>,
    l_prime: usize,
    group: &GroupCtx,
    start: Vec<G2>,
) -> (r: Vec<G2>)
    requires
        l_prime < usize::MAX,
        vectors@.len() == l_prime + 1,
    ensures
        g2s(r@) == constant_sum(
            mat_scale(group.g2@, scalar_rows(vectors@)),
            (l_prime + 1) as nat,
            g2s(start@),
        ),
{
    let ghost begin = g2s(start@);
    let mut acc = start;
    let mut i: usize = 0;
    while i <= l_prime
        invariant
            i <= l_prime + 1,
            l_prime < usize::MAX,
            vectors@.len() == l_prime + 1,
            g2s(acc@) == constant_sum(
                mat_scale(group.g2@, scalar_rows(vectors@)),
                i as nat,
                begin,
            ),
        decreases l_prime + 1 - i,
    {
        let fi = f_prime_i(i);
        if !fi.is_zero() {
            let lifted = vector_lift_g2(&vectors[i], group);
            let scaled = scalar_vector_mul_g2(fi, &lifted);
            acc = vector_add_g2(&acc, &scaled);
        }
        i += 1;
    }
    acc
}

/// Whether two vectors of G2 points hold the same points.
pub fn vectors_equal_g2(a: &Vec<G2>, b: &Vec<G2>) -> (r: bool)
    ensures
        r == (g2s(a@) == g2s(b@)),
{
    if a.len() != b.len() {
        assert(g2s(a@).len() != g2s(b@).len());
        return false;
    }
    let mut i: usize = 0;
    while i < a.len()
        invariant
            i <= a@.len(),
            a@.len() == b@.len(),
            forall|t: int| 0 <= t < i ==> (#[trigger] a@[t])@ == b@[t]@,
        decreases a.len() - i,
    {
        if !a[i].same(&b[i]) {
            assert(g2s(a@)[i as int] != g2s(b@)[i as int]);
            return false;
        }
        i += 1;
    }
    assert(g2s(a@) =~= g2s(b@));
    true
}

impl AffineMAC {
    /// The dimensions fit the machine and the group context is the standard one.
    pub open spec fn valid(&self) -> bool {
        &&& 2 * self.k <= usize::MAX
        &&& self.l < usize::MAX
        &&& self.l_prime < usize::MAX
        &&& self.group.is_standard()
    }

    /// The tag has the dimensions that `k` asks for.
    pub open spec fn tag_fits(&self, tag: &Tag) -> bool {
        &&& tag.t_field@.len() == self.k
        &&& tag.t_g2@.len() == self.k
        &&& tag.u_g2@.len() == 2 * self.k
    }

    /// `tag` is the tag of `message` under `sk` made with the randomness `s`.
    pub open spec fn is_tag(&self, sk: &SecretKey, message: Seq<u8>, s: Seq<FieldElement>, tag: &Tag) -> bool {
        let t = mat_vec(scalar_rows(sk.b@), scalars(s));
        let u = mac_value(
            scalar_cube(sk.x_matrices@),
            scalar_rows(sk.x_prime@),
            self.k as nat,
            self.l as nat,
            self.l_prime as nat,
            message,
            t,
        );
        &&& scalars(tag.t_field@) == t
        &&& g2s(tag.t_g2@) == vec_scale(self.group.g2@, t)
        &&& g2s(tag.u_g2@) == vec_scale(self.group.g2@, u)
    }

    /// The vector that `U` of a tag must equal for the tag to be accepted.
    pub open spec fn expected(&self, sk: &SecretKey, message: Seq<u8>, tag: &Tag) -> Seq<nat> {
        mac_value(
            scalar_cube(sk.x_matrices@),
            mat_scale(self.group.g2@, scalar_rows(sk.x_prime@)),
            self.k as nat,
            self.l as nat,
            self.l_prime as nat,
            message,
            g2s(tag.t_g2@),
        )
    }

    /// The tag is the one that the key gives the message for the lifted `T`
    /// that it carries.
    pub open spec fn accepts(&self, sk: &SecretKey, message: Seq<u8>, tag: &Tag) -> bool {
        g2s(tag.u_g2@) == self.expected(sk, message, tag)
    }

    /// A MAC of the given dimensions over the groups of BLS12-381.
    pub fn new(k: usize, l: usize, l_prime: usize) -> (r: Self)
        requires
            2 * k <= usize::MAX,
            l < usize::MAX,
            l_prime < usize::MAX,
        ensures
            r.k == k,
            r.l == l,
            r.l_prime == l_prime,
            r.valid(),
    {
        AffineMAC { k, l, l_prime, group: GroupCtx::bls12_381() }
    }

    /// A fresh secret key of the MAC's dimensions.
    pub fn gen_mac(&self) -> (sk: SecretKey)
        requires
            self.valid(),
        ensures
            sk.fits(self.k as nat, self.l as nat, self.l_prime as nat),
    {
        let b = random_matrix(self.k, self.k);
        let mut x_matrices: Vec<Matrix<FieldElement>> = Vec::new();
        let mut i: usize = 0;
        while i <= self.l
            invariant
                self.valid(),
                i <= self.l + 1,
                x_matrices@.len() == i,
                all_shaped(x_matrices@, (2 * self.k) as nat, self.k as nat),
            decreases self.l + 1 - i,
        {
            x_matrices.push(random_matrix(2 * self.k, self.k));
            i += 1;
        }
        let mut x_prime: Vec<Vector> = Vec::new();
        let mut i: usize = 0;
        while i <= self.l_prime
            invariant
                self.valid(),
                i <= self.l_prime + 1,
                x_prime@.len() == i,
                rows_have(x_prime@, (2 * self.k) as nat),
            decreases self.l_prime + 1 - i,
        {
            x_prime.push(random_vector(2 * self.k));
            i += 1;
        }
        SecretKey { b, x_matrices, x_prime }
    }

    /// The tag of `message` made with the randomness `s`.
    pub fn tag_with(&self, sk: &SecretKey, message: &[u8], s: &Vector) -> (tag: Tag)
        requires
            self.valid(),
            sk.fits(self.k as nat, self.l as nat, self.l_prime as nat),
        ensures
            self.is_tag(sk, message@, s@, &tag),
            self.tag_fits(&tag),
    {
        let t_field = matrix_vector_mul(&sk.b, s);
        let zero = vector_zero(2 * self.k);
        let affine = affine_combination(&sk.x_matrices, self.l, message, &t_field, zero);
        let u_field = constant_combination(&sk.x_prime, self.l_prime, affine);
        let t_g2 = vector_lift_g2(&t_field, &self.group);
        let u_g2 = vector_lift_g2(&u_field, &self.group);
        proof {
            let tag = Tag { t_g2, u_g2, t_field };
            lemma_tag_fits(*self, *sk, message@, s@, tag);
        }
        Tag { t_g2, u_g2, t_field }
    }

    /// A tag of `message` made with fresh randomness.
    pub fn tag(&self, sk: &SecretKey, message: &[u8]) -> (tag: Tag)
        requires
            self.valid(),
            sk.fits(self.k as nat, self.l as nat, self.l_prime as nat),
        ensures
            exists|s: Seq<FieldElement>| s.len() == self.k && self.is_tag(sk, message@, s, &tag),
            self.tag_fits(&tag),
    {
        let s = random_vector(self.k);
        let tag = self.tag_with(sk, message, &s);
        assert(s@.len() == self.k && self.is_tag(sk, message@, s@, &tag));
        tag
    }

    /// Whether the tag is the one that the key gives the message.
    pub fn verify(&self, sk: &SecretKey, message: &[u8], tag: &Tag) -> (r: bool)
        requires
            self.valid(),
            sk.fits(self.k as nat, self.l as nat, self.l_prime as nat),
            tag.t_g2@.len() == self.k,
            tag.u_g2@.len() == 2 * self.k,
        ensures
            r == self.accepts(sk, message@, tag),
    {
        let zero = vector_zero_g2(2 * self.k);
        let affine = affine_combination_g2(&sk.x_matrices, self.l, message, &tag.t_g2, zero);
        let expected = constant_combination_g2(&sk.x_prime, self.l_prime, &self.group, affine);
        vectors_equal_g2(&tag.u_g2, &expected)
    }
}

/// A tag of a key of the right dimensions has the dimensions that `k` asks
/// for.
pub proof fn lemma_tag_fits(
    mac: AffineMAC,
    sk: SecretKey,
    message: Seq<u8>,
    s: Seq<FieldElement>,
    tag: Tag,
)
    requires
        sk.fits(mac.k as nat, mac.l as nat, mac.l_prime as nat),
        mac.is_tag(&sk, message, s, &tag),
    ensures
        mac.tag_fits(&tag),
{
    let t = mat_vec(scalar_rows(sk.b@), scalars(s));
    let xs = scalar_cube(sk.x_matrices@);
    let constants = scalar_rows(sk.x_prime@);
    let start = zeros((2 * mac.k) as nat);
    assert forall|i: int| 0 <= i < xs.len() implies (#[trigger] xs[i]).len() == start.len() by {
        assert(sk.x_matrices@[i]@.len() == 2 * mac.k);
    }
    crate::f_functions::lemma_affine_sum_len(
        xs,
        mac.l as nat,
        message,
        t,
        (mac.l + 1) as nat,
        start,
    );
    let affine = affine_sum(xs, mac.l as nat, message, t, (mac.l + 1) as nat, start);
    assert forall|i: int| 0 <= i < constants.len() implies (#[trigger] constants[i]).len()
        == affine.len() by {
        assert(sk.x_prime@[i]@.len() == 2 * mac.k);
    }
    crate::f_functions::lemma_constant_sum_len(constants, (mac.l_prime + 1) as nat, affine);
    assert(scalars(tag.t_field@).len() == tag.t_field@.len());
    assert(g2s(tag.t_g2@).len() == tag.t_g2@.len());
    assert(g2s(tag.u_g2@).len() == tag.u_g2@.len());
}

/// A tag that `tag` makes for a message under a key is accepted by `verify`
/// for that message under that key, whatever the randomness was.
pub proof fn lemma_tag_verifies(
    mac: AffineMAC,
    sk: SecretKey,
    message: Seq<u8>,
    s: Seq<FieldElement>,
    tag: Tag,
)
    requires
        mac.valid(),
        sk.fits(mac.k as nat, mac.l as nat, mac.l_prime as nat),
        mac.is_tag(&sk, message, s, &tag),
    ensures
        mac.accepts(&sk, message, &tag),
{
    let t = mat_vec(scalar_rows(sk.b@), scalars(s));
    lemma_mat_vec_canonical(scalar_rows(sk.b@), scalars(s));
    lemma_scale_one(t);
    let constants = scalar_rows(sk.x_prime@);
    assert forall|i: int| 0 <= i < constants.len() implies crate::math::canonical(
        #[trigger] constants[i],
    ) by {
        lemma_scalars_canonical(sk.x_prime@[i]@);
    }
    lemma_mat_scale_one(constants);
    let u = mac_value(
        scalar_cube(sk.x_matrices@),
        constants,
        mac.k as nat,
        mac.l as nat,
        mac.l_prime as nat,
        message,
        t,
    );
    crate::math::lemma_modulus_large();
    assert(crate::math::canonical(zeros((2 * mac.k) as nat)));
    crate::f_functions::lemma_mac_canonical(
        scalar_cube(sk.x_matrices@),
        constants,
        mac.l as nat,
        mac.l_prime as nat,
        message,
        t,
        zeros((2 * mac.k) as nat),
    );
    lemma_scale_one(u);
}

} // verus!

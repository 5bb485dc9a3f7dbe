//! The scalar field and the three groups of the pairing, held as opaque
//! values of the curve library and described by the exponent they stand for.
//!
//! The three groups are cyclic of the same prime order, so every element is
//! a multiple of the fixed generator of its group, and the contracts speak
//! of that multiple: points add where exponents add, and the pairing
//! multiplies them. The fields of the four types are private. A value is
//! only ever made by the operations below, from the generators and from
//! hashing into the subgroup, so it lies in the subgroup of prime order.

use ark_ec::hashing::curve_maps::wb::WBMap;
use ark_ec::hashing::map_to_curve_hasher::MapToCurveBasedHasher;
use ark_ec::hashing::HashToCurve;
use ark_ec::pairing::Pairing;
use ark_ec::{CurveGroup, PrimeGroup, VariableBaseMSM};
use ark_ff::field_hashers::{DefaultFieldHasher, HashToField};
use ark_ff::{BigInteger, Field, One, PrimeField, UniformRand, Zero};
use vstd::prelude::*;
use crate::math::{canonical, dot, fadd, fmul, fneg, lemma_modulus_large, scalar_modulus};

verus! {

/// An element of the scalar field, held as an `ark_bls12_381::Fr`.
#[verifier::external_body]
pub struct FieldElement {
    inner: ark_bls12_381::Fr,
}

/// An element of the prime-order subgroup G1, held as an
/// `ark_bls12_381::G1Projective`.
#[verifier::external_body]
pub struct G1 {
    inner: ark_bls12_381::G1Projective,
}

/// An element of the prime-order subgroup G2, held as an
/// `ark_bls12_381::G2Projective`.
#[verifier::external_body]
pub struct G2 {
    inner: ark_bls12_381::G2Projective,
}

/// An element of the target group, a power of the pairing of the two
/// generators, held as an `ark_bls12_381::Fq12`.
#[verifier::external_body]
pub struct GTElement {
    inner: ark_bls12_381::Fq12,
}

/// A matrix as the list of its rows.
pub type Matrix<T> = Vec<Vec<T>>;

/// A vector of field elements.
pub type Vector = Vec<FieldElement>;

/// The canonical representative of a field element, as an integer.
pub uninterp spec fn field_repr(x: FieldElement) -> nat;

/// The multiple of the G1 generator that a point is.
pub uninterp spec fn g1_exponent(p: G1) -> nat;

/// The multiple of the G2 generator that a point is.
pub uninterp spec fn g2_exponent(p: G2) -> nat;

/// The power of the target generator `e(g1, g2)` that an element is.
pub uninterp spec fn gt_exponent(p: GTElement) -> nat;

/// The bytes of the affine coordinate `x` of the G1 point with the given
/// exponent, as little-endian limbs.
pub uninterp spec fn g1_x_bytes(exponent: nat) -> Seq<u8>;

/// The bytes of the affine coordinate `y` of the G1 point with the given
/// exponent, as little-endian limbs.
pub uninterp spec fn g1_y_bytes(exponent: nat) -> Seq<u8>;

/// The encoding of the G1 point with the given exponent: the bytes of its
/// coordinate `x`, then those of its coordinate `y`.
pub open spec fn g1_encoding(exponent: nat) -> Seq<u8> {
    g1_x_bytes(exponent) + g1_y_bytes(exponent)
}

/// The representative of the field element that the bytes are hashed to
/// under a domain separation tag.
pub uninterp spec fn hashed_scalar(domain: Seq<u8>, input: Seq<u8>) -> nat;

/// The exponent of the G1 point that the bytes are hashed to under a domain
/// separation tag.
pub uninterp spec fn hashed_point(domain: Seq<u8>, input: Seq<u8>) -> nat;

impl View for FieldElement {
    type V = nat;

    /// The value, reduced so that it is below the modulus by definition.
    open spec fn view(&self) -> nat {
        field_repr(*self) % scalar_modulus()
    }
}

impl View for G1 {
    type V = nat;

    /// The exponent, reduced so that it is below the group order by
    /// definition.
    open spec fn view(&self) -> nat {
        g1_exponent(*self) % scalar_modulus()
    }
}

impl View for G2 {
    type V = nat;

    /// The exponent, reduced so that it is below the group order by
    /// definition.
    open spec fn view(&self) -> nat {
        g2_exponent(*self) % scalar_modulus()
    }
}

impl View for GTElement {
    type V = nat;

    /// The exponent, reduced so that it is below the group order by
    /// definition.
    open spec fn view(&self) -> nat {
        gt_exponent(*self) % scalar_modulus()
    }
}

/// The values of a vector of field elements.
pub open spec fn scalars(v: Seq<FieldElement>) -> Seq<nat> {
    Seq::new(v.len(), |i: int| v[i]@)
}

/// The exponents of a vector of G1 points.
pub open spec fn g1s(v: Seq<G1>) -> Seq<nat> {
    Seq::new(v.len(), |i: int| v[i]@)
}

/// The exponents of a vector of G2 points.
pub open spec fn g2s(v: Seq<G2>) -> Seq<nat> {
    Seq::new(v.len(), |i: int| v[i]@)
}

/// The values of a matrix of field elements.
pub open spec fn scalar_rows(m: Seq<Vec<FieldElement>>) -> Seq<Seq<nat>> {
    Seq::new(m.len(), |i: int| scalars(m[i]@))
}

/// The exponents of a matrix of G1 points.
pub open spec fn g1_rows(m: Seq<Vec<G1>>) -> Seq<Seq<nat>> {
    Seq::new(m.len(), |i: int| g1s(m[i]@))
}

/// The exponents of a matrix of G2 points.
pub open spec fn g2_rows(m: Seq<Vec<G2>>) -> Seq<Seq<nat>> {
    Seq::new(m.len(), |i: int| g2s(m[i]@))
}

/// The values of a list of matrices of field elements.
pub open spec fn scalar_cube(ms: Seq<Vec<Vec<FieldElement>>>) -> Seq<Seq<Seq<nat>>> {
    Seq::new(ms.len(), |i: int| scalar_rows(ms[i]@))
}

/// The exponents of a list of matrices of G1 points.
pub open spec fn g1_cube(ms: Seq<Vec<Vec<G1>>>) -> Seq<Seq<Seq<nat>>> {
    Seq::new(ms.len(), |i: int| g1_rows(ms[i]@))
}

/// The exponents of a list of matrices of G2 points.
pub open spec fn g2_cube(ms: Seq<Vec<Vec<G2>>>) -> Seq<Seq<Seq<nat>>> {
    Seq::new(ms.len(), |i: int| g2_rows(ms[i]@))
}

/// The exponents of a list of pairs of matrices of G1 points.
pub open spec fn g1_pairs(ms: Seq<Vec<Vec<Vec<G1>>>>) -> Seq<Seq<Seq<Seq<nat>>>> {
    Seq::new(ms.len(), |i: int| g1_cube(ms[i]@))
}

/// The exponents of a list of pairs of matrices of G2 points.
pub open spec fn g2_pairs(ms: Seq<Vec<Vec<Vec<G2>>>>) -> Seq<Seq<Seq<Seq<nat>>>> {
    Seq::new(ms.len(), |i: int| g2_cube(ms[i]@))
}

/// The encodings of the points one after the other.
pub open spec fn encode_points(points: Seq<nat>) -> Seq<u8>
    decreases points.len(),
{
    if points.len() == 0 {
        Seq::empty()
    } else {
        encode_points(points.drop_last()) + g1_encoding(points.last())
    }
}

/// The sum, over the first `n` pairs, of the products of the two exponents:
/// the exponent of the product of their pairings.
pub open spec fn pairing_sum(pairs: Seq<(G1, G2)>, n: nat) -> nat
    decreases n,
{
    if n == 0 {
        0
    } else {
        fadd(pairing_sum(pairs, (n - 1) as nat), fmul(pairs[n - 1].0@, pairs[n - 1].1@))
    }
}

impl FieldElement {
    /// `Fr::zero`: the additive identity.
    #[verifier::external_body]
    pub(crate) fn zero() -> (r: Self)
        ensures
            r@ == 0,
    {
        FieldElement { inner: ark_bls12_381::Fr::zero() }
    }

    /// `Fr::one`: the multiplicative identity.
    #[verifier::external_body]
    pub(crate) fn one() -> (r: Self)
        ensures
            r@ == 1,
    {
        FieldElement { inner: ark_bls12_381::Fr::one() }
    }

    /// `Fr::from(u64)`: the element whose representative is `v`, which is
    /// below the modulus.
    #[verifier::external_body]
    pub(crate) fn from_u64(v: u64) -> (r: Self)
        ensures
            field_repr(r) == v,
            r@ == v,
    {
        FieldElement { inner: ark_bls12_381::Fr::from(v) }
    }

    /// `Fr::rand` on the thread's generator: some element, of which only the
    /// range of its representative is known.
    #[verifier::external_body]
    pub(crate) fn random() -> (r: Self)
        ensures
            field_repr(r) < scalar_modulus(),
    {
        let mut rng = rand::thread_rng();
        FieldElement { inner: ark_bls12_381::Fr::rand(&mut rng) }
    }

    /// `HashToField::hash_to_field` of `DefaultFieldHasher` over BLAKE3, for
    /// one element: the element that the input is hashed to.
    #[verifier::external_body]
    pub(crate) fn from_hash(domain: &[u8], input: &[u8]) -> (r: Self)
        ensures
            field_repr(r) == hashed_scalar(domain@, input@),
    {
        let hasher = <DefaultFieldHasher<blake3::Hasher> as HashToField<ark_bls12_381::Fr>>::new(domain);
        let elements: [ark_bls12_381::Fr; 1] = hasher.hash_to_field::<1>(input);
        FieldElement { inner: elements[0] }
    }

    /// `Fr::is_zero`.
    #[verifier::external_body]
    pub(crate) fn is_zero(&self) -> (r: bool)
        ensures
            r == (self@ == 0),
    {
        self.inner.is_zero()
    }

    /// `+` of `Fr`: the sum modulo the field's order.
    #[verifier::external_body]
    pub(crate) fn plus(&self, other: &Self) -> (r: Self)
        ensures
            r@ == fadd(self@, other@),
    {
        FieldElement { inner: self.inner + other.inner }
    }

    /// `-` of `Fr`: the difference modulo the field's order.
    #[verifier::external_body]
    pub(crate) fn minus(&self, other: &Self) -> (r: Self)
        ensures
            r@ == fadd(self@, fneg(other@)),
    {
        FieldElement { inner: self.inner - other.inner }
    }

    /// Unary `-` of `Fr`: the additive inverse.
    #[verifier::external_body]
    pub(crate) fn negated(&self) -> (r: Self)
        ensures
            r@ == fneg(self@),
    {
        FieldElement { inner: -self.inner }
    }

    /// `*` of `Fr`: the product modulo the field's order.
    #[verifier::external_body]
    pub(crate) fn times(&self, other: &Self) -> (r: Self)
        ensures
            r@ == fmul(self@, other@),
    {
        FieldElement { inner: self.inner * other.inner }
    }

    /// `==` of `Fr`: elements are equal exactly when their representatives are.
    #[verifier::external_body]
    pub(crate) fn same(&self, other: &Self) -> (r: bool)
        ensures
            r == (self@ == other@),
    {
        self.inner == other.inner
    }
}

impl G1 {
    /// `G1Projective::zero`: the point at infinity.
    #[verifier::external_body]
    pub(crate) fn zero() -> (r: Self)
        ensures
            r@ == 0,
    {
        G1 { inner: ark_bls12_381::G1Projective::zero() }
    }

    /// `G1Projective::generator`: the fixed generator of the subgroup.
    #[verifier::external_body]
    pub(crate) fn generator() -> (r: Self)
        ensures
            g1_exponent(r) == 1,
            r@ == 1,
    {
        G1 { inner: ark_bls12_381::G1Projective::generator() }
    }

    /// `HashToCurve::hash` of `MapToCurveBasedHasher` with the
    /// Wahby-Boneh map and a field hasher over BLAKE3: the point of the
    /// subgroup that the input is hashed to. For this curve neither the
    /// construction of the hasher nor the map reports an error.
    #[verifier::external_body]
    pub(crate) fn from_hash(domain: &[u8], input: &[u8]) -> (r: Self)
        ensures
            g1_exponent(r) == hashed_point(domain@, input@),
    {
        let mapper = MapToCurveBasedHasher::<
            ark_bls12_381::G1Projective,
            DefaultFieldHasher<blake3::Hasher, 128>,
            WBMap<ark_bls12_381::g1::Config>,
        >::new(domain).unwrap();
        G1 { inner: mapper.hash(input).unwrap().into() }
    }

    /// `+` of `G1Projective`: exponents add.
    #[verifier::external_body]
    pub(crate) fn plus(&self, other: &Self) -> (r: Self)
        ensures
            r@ == fadd(self@, other@),
    {
        G1 { inner: self.inner + other.inner }
    }

    /// Unary `-` of `G1Projective`: the exponent is negated.
    #[verifier::external_body]
    pub(crate) fn negated(&self) -> (r: Self)
        ensures
            r@ == fneg(self@),
    {
        G1 { inner: -self.inner }
    }

    /// `*` of `G1Projective` by a scalar: the exponent is multiplied.
    #[verifier::external_body]
    pub(crate) fn times(&self, s: &FieldElement) -> (r: Self)
        ensures
            r@ == fmul(self@, s@),
    {
        G1 { inner: self.inner * s.inner }
    }

    /// `==` of `G1Projective`, which compares the points and not their
    /// coordinates: points of the subgroup are equal exactly when their
    /// exponents are.
    #[verifier::external_body]
    pub(crate) fn same(&self, other: &Self) -> (r: bool)
        ensures
            r == (self@ == other@),
    {
        self.inner == other.inner
    }

    /// `VariableBaseMSM::msm_unchecked` after `CurveGroup::normalize_batch`:
    /// the sum of the bases, each multiplied by the scalar at its index, over
    /// the common length.
    #[verifier::external_body]
    pub(crate) fn msm(bases: &Vec<G1>, coefficients: &Vec<FieldElement>) -> (r: Self)
        ensures
            r@ == dot(g1s(bases@), scalars(coefficients@)),
    {
        let points: Vec<ark_bls12_381::G1Projective> = bases.iter().map(|g| g.inner).collect();
        let affine = ark_bls12_381::G1Projective::normalize_batch(&points);
        let factors: Vec<ark_bls12_381::Fr> = coefficients.iter().map(|s| s.inner).collect();
        G1 { inner: ark_bls12_381::G1Projective::msm_unchecked(&affine, &factors) }
    }

    /// `into_affine`, then `into_bigint().to_bytes_le()` of the coordinate
    /// `x`.
    #[verifier::external_body]
    pub(crate) fn x_bytes(&self) -> (r: Vec<u8>)
        ensures
            r@ == g1_x_bytes(self@),
    {
        self.inner.into_affine().x.into_bigint().to_bytes_le()
    }

    /// `into_affine`, then `into_bigint().to_bytes_le()` of the coordinate
    /// `y`.
    #[verifier::external_body]
    pub(crate) fn y_bytes(&self) -> (r: Vec<u8>)
        ensures
            r@ == g1_y_bytes(self@),
    {
        self.inner.into_affine().y.into_bigint().to_bytes_le()
    }
}

impl G2 {
    /// `G2Projective::zero`: the point at infinity.
    #[verifier::external_body]
    pub(crate) fn zero() -> (r: Self)
        ensures
            r@ == 0,
    {
        G2 { inner: ark_bls12_381::G2Projective::zero() }
    }

    /// `G2Projective::generator`: the fixed generator of the subgroup.
    #[verifier::external_body]
    pub(crate) fn generator() -> (r: Self)
        ensures
            g2_exponent(r) == 1,
            r@ == 1,
    {
        G2 { inner: ark_bls12_381::G2Projective::generator() }
    }

    /// `+` of `G2Projective`: exponents add.
    #[verifier::external_body]
    pub(crate) fn plus(&self, other: &Self) -> (r: Self)
        ensures
            r@ == fadd(self@, other@),
    {
        G2 { inner: self.inner + other.inner }
    }

    /// `*` of `G2Projective` by a scalar: the exponent is multiplied.
    #[verifier::external_body]
    pub(crate) fn times(&self, s: &FieldElement) -> (r: Self)
        ensures
            r@ == fmul(self@, s@),
    {
        G2 { inner: self.inner * s.inner }
    }

    /// `==` of `G2Projective`, which compares the points and not their
    /// coordinates.
    #[verifier::external_body]
    pub(crate) fn same(&self, other: &Self) -> (r: bool)
        ensures
            r == (self@ == other@),
    {
        self.inner == other.inner
    }
}

impl GTElement {
    /// `Fq12::one`: the identity of the target group.
    #[verifier::external_body]
    pub(crate) fn one() -> (r: Self)
        ensures
            r@ == 0,
    {
        GTElement { inner: ark_bls12_381::Fq12::one() }
    }

    /// `Pairing::pairing` of BLS12-381, which is bilinear: the exponent of
    /// the result is the product of the two exponents.
    #[verifier::external_body]
    pub(crate) fn pair(p: &G1, q: &G2) -> (r: Self)
        ensures
            gt_exponent(r) < scalar_modulus(),
            r@ == fmul(p@, q@),
    {
        GTElement { inner: ark_bls12_381::Bls12_381::pairing(p.inner, q.inner).0 }
    }

    /// `Pairing::multi_pairing` of BLS12-381: the product of the pairings of
    /// all pairs.
    #[verifier::external_body]
    pub(crate) fn pair_all(pairs: &[(G1, G2)]) -> (r: Self)
        ensures
            r@ == pairing_sum(pairs@, pairs@.len()),
    {
        let left = pairs.iter().map(|(p, _)| p.inner);
        let right = pairs.iter().map(|(_, q)| q.inner);
        GTElement { inner: ark_bls12_381::Bls12_381::multi_pairing(left, right).0 }
    }

    /// `*` of `Fq12`: exponents add.
    #[verifier::external_body]
    pub(crate) fn times(&self, other: &Self) -> (r: Self)
        ensures
            r@ == fadd(self@, other@),
    {
        GTElement { inner: self.inner * other.inner }
    }

    /// `Field::pow` of `Fq12` by the representative of a scalar: the exponent
    /// is multiplied.
    #[verifier::external_body]
    pub(crate) fn pow(&self, s: &FieldElement) -> (r: Self)
        ensures
            r@ == fmul(self@, s@),
    {
        GTElement { inner: self.inner.pow(s.inner.into_bigint()) }
    }

    /// `Field::inverse` of `Fq12`, which is `None` for zero alone. An element
    /// of the target group is a power of its generator and never zero, so
    /// there is an inverse, and its exponent is the negated one.
    #[verifier::external_body]
    pub(crate) fn inverse(&self) -> (r: Option<Self>)
        ensures
            r.is_some(),
            r.unwrap()@ == fneg(self@),
    {
        match self.inner.inverse() {
            Some(inv) => Some(GTElement { inner: inv }),
            None => None,
        }
    }

    /// `==` of `Fq12`.
    #[verifier::external_body]
    pub(crate) fn same(&self, other: &Self) -> (r: bool)
        ensures
            r == (self@ == other@),
    {
        self.inner == other.inner
    }
}

impl Clone for FieldElement {
    /// The copy that `Fr` makes of itself.
    #[verifier::external_body]
    fn clone(&self) -> (r: Self)
        ensures
            r == *self,
    {
        FieldElement { inner: self.inner }
    }
}

impl Copy for FieldElement {
}

impl Clone for G1 {
    /// The copy that `G1Projective` makes of itself.
    #[verifier::external_body]
    fn clone(&self) -> (r: Self)
        ensures
            r == *self,
    {
        G1 { inner: self.inner }
    }
}

impl Copy for G1 {
}

impl Clone for G2 {
    /// The copy that `G2Projective` makes of itself.
    #[verifier::external_body]
    fn clone(&self) -> (r: Self)
        ensures
            r == *self,
    {
        G2 { inner: self.inner }
    }
}

impl Copy for G2 {
}

impl Clone for GTElement {
    /// The copy that `Fq12` makes of itself.
    #[verifier::external_body]
    fn clone(&self) -> (r: Self)
        ensures
            r == *self,
    {
        GTElement { inner: self.inner }
    }
}

impl Copy for GTElement {
}

impl PartialEq for FieldElement {
    fn eq(&self, other: &Self) -> (r: bool) {
        self.same(other)
    }
}

impl vstd::std_specs::cmp::PartialEqSpecImpl for FieldElement {
    open spec fn obeys_eq_spec() -> bool {
        true
    }

    open spec fn eq_spec(&self, other: &Self) -> bool {
        self@ == other@
    }
}

impl PartialEq for G1 {
    fn eq(&self, other: &Self) -> (r: bool) {
        self.same(other)
    }
}

impl vstd::std_specs::cmp::PartialEqSpecImpl for G1 {
    open spec fn obeys_eq_spec() -> bool {
        true
    }

    open spec fn eq_spec(&self, other: &Self) -> bool {
        self@ == other@
    }
}

impl PartialEq for G2 {
    fn eq(&self, other: &Self) -> (r: bool) {
        self.same(other)
    }
}

impl vstd::std_specs::cmp::PartialEqSpecImpl for G2 {
    open spec fn obeys_eq_spec() -> bool {
        true
    }

    open spec fn eq_spec(&self, other: &Self) -> bool {
        self@ == other@
    }
}

impl PartialEq for GTElement {
    fn eq(&self, other: &Self) -> (r: bool) {
        self.same(other)
    }
}

impl vstd::std_specs::cmp::PartialEqSpecImpl for GTElement {
    open spec fn obeys_eq_spec() -> bool {
        true
    }

    open spec fn eq_spec(&self, other: &Self) -> bool {
        self@ == other@
    }
}

/// The value of a field element is below the modulus.
pub proof fn lemma_value_bound(x: FieldElement)
    ensures
        x@ < scalar_modulus(),
        fmul(1, x@) == x@,
        fmul(x@, 1) == x@,
{
    lemma_modulus_large();
    vstd::arithmetic::div_mod::lemma_mod_bound(field_repr(x) as int, scalar_modulus() as int);
    crate::math::lemma_mul_one(x@);
}

/// The values of field elements are below the modulus.
pub proof fn lemma_scalars_canonical(v: Seq<FieldElement>)
    ensures
        canonical(scalars(v)),
{
    lemma_modulus_large();
    assert forall|i: int| 0 <= i < v.len() implies (#[trigger] scalars(v)[i])
        < scalar_modulus() by {
        vstd::arithmetic::div_mod::lemma_mod_bound(
            field_repr(v[i]) as int,
            scalar_modulus() as int,
        );
    }
}

/// Appends `bytes` to `out`.
pub fn append_bytes(out: &mut Vec<u8>, bytes: &[u8])
    ensures
        final(out)@ == old(out)@ + bytes@,
{
    let ghost before = out@;
    let mut i: usize = 0;
    assert(out@ =~= before + bytes@.subrange(0, 0));
    while i < bytes.len()
        invariant
            i <= bytes@.len(),
            out@ == before + bytes@.subrange(0, i as int),
        decreases bytes.len() - i,
    {
        out.push(bytes[i]);
        assert(out@ =~= before + bytes@.subrange(0, i + 1));
        i += 1;
    }
    assert(bytes@.subrange(0, bytes@.len() as int) =~= bytes@);
}

/// Appends the encoding of a point to `out`: its coordinate `x`, then its
/// coordinate `y`.
pub fn append_point(out: &mut Vec<u8>, point: &G1)
    ensures
        final(out)@ == old(out)@ + g1_encoding(point@),
{
    let ghost before = out@;
    let x = point.x_bytes();
    let y = point.y_bytes();
    append_bytes(out, x.as_slice());
    append_bytes(out, y.as_slice());
    assert(out@ =~= before + g1_encoding(point@));
}

/// Appends the encoding of each point to `out`.
pub fn append_points(out: &mut Vec<u8>, points: &Vec<G1>)
    ensures
        final(out)@ == old(out)@ + encode_points(g1s(points@)),
{
    let ghost before = out@;
    let mut i: usize = 0;
    assert(g1s(points@).take(0) =~= Seq::<nat>::empty());
    assert(out@ =~= before + encode_points(g1s(points@).take(0)));
    while i < points.len()
        invariant
            i <= points@.len(),
            out@ == before + encode_points(g1s(points@).take(i as int)),
        decreases points.len() - i,
    {
        let ghost earlier = out@;
        append_point(out, &points[i]);
        proof {
            let longer = g1s(points@).take(i + 1);
            assert(longer.drop_last() =~= g1s(points@).take(i as int));
            assert(longer.last() == points@[i as int]@);
            assert(out@ =~= before + encode_points(longer));
        }
        i += 1;
    }
    assert(g1s(points@).take(points@.len() as int) =~= g1s(points@));
}

/// The bytes of `prefix` followed by the encoding of each point.
pub fn bytes_then_points(prefix: &[u8], points: &Vec<G1>) -> (r: Vec<u8>)
    ensures
        r@ == prefix@ + encode_points(g1s(points@)),
{
    let mut out: Vec<u8> = Vec::new();
    let mut i: usize = 0;
    while i < prefix.len()
        invariant
            i <= prefix@.len(),
            out@ == prefix@.subrange(0, i as int),
        decreases prefix.len() - i,
    {
        out.push(prefix[i]);
        assert(out@ =~= prefix@.subrange(0, i + 1));
        i += 1;
    }
    assert(out@ =~= prefix@);
    append_points(&mut out, points);
    out
}

/// Extending a list of pairs by one adds the product of the exponents of
/// the new pair to the sum.
pub proof fn lemma_pairing_sum_push(pairs: Seq<(G1, G2)>, next: (G1, G2))
    ensures
        pairing_sum(pairs.push(next), pairs.len() + 1) == fadd(
            pairing_sum(pairs, pairs.len()),
            fmul(next.0@, next.1@),
        ),
{
    lemma_pairing_sum_prefix(pairs, next, pairs.len());
}

/// The sum over a prefix does not depend on what follows it.
pub proof fn lemma_pairing_sum_prefix(pairs: Seq<(G1, G2)>, next: (G1, G2), n: nat)
    requires
        n <= pairs.len(),
    ensures
        pairing_sum(pairs.push(next), n) == pairing_sum(pairs, n),
    decreases n,
{
    if n > 0 {
        lemma_pairing_sum_prefix(pairs, next, (n - 1) as nat);
    }
}

/// The field element with the given small value.
pub fn field_element(v: u64) -> (r: FieldElement)
    ensures
        r@ == v,
{
    FieldElement::from_u64(v)
}

} // verus!

//! The hierarchical identity-based encryption of Lewko and Waters, for
//! messages of the target group: a key for a path of identities opens the
//! ciphertexts for every path that it is a prefix of, and can be extended
//! by one identity without the master secret.

use vstd::prelude::*;
use crate::algebra::{
    congruent, lemma_congruent_add, lemma_congruent_small, lemma_fadd_associates,
    lemma_fadd_congruent, lemma_fadd_zero, lemma_negation_evaluates, lemma_product_evaluates,
    lemma_sum_evaluates,
};
use crate::completeness::lemma_negation_congruent;
use crate::field_utils::random_field_element;
use crate::hashing::{hash_to_fr, hash_to_fr_value};
use crate::math::{fadd, fmul, fneg, lemma_modulus_large, scalar_modulus};
use crate::types::{g2s, lemma_value_bound, scalars, FieldElement, GTElement, Vector, G1, G2};

verus! {

/// The master secret key.
pub struct MSK {
    pub alpha: FieldElement,
    pub b: FieldElement,
    pub b_0: FieldElement,
    pub b_1: FieldElement,
}

/// The master public key.
pub struct MPK {
    pub a: GTElement,
    pub b_g1: G1,
    pub b_g2: G2,
    pub b_0_g1: G1,
    pub b_0_g2: G2,
    pub b_1_g1: G1,
    pub b_1_g2: G2,
}

/// The secret key of a path of identities.
pub struct USK {
    pub identity: Vec<String>,
    pub k: Vec<G2>,
    pub k_1: Vec<G2>,
    pub k_2: Vec<G2>,
}

/// A ciphertext for a path of identities.
pub struct CT {
    pub identity: Vec<String>,
    pub msg: GTElement,
    pub c: G1,
    pub c_i: Vec<G1>,
    pub c_i_alt: Vec<G1>,
}

/// The scheme.
pub struct LW {}

/// The sum of the first `n` entries, from the left.
pub open spec fn total(v: Seq<nat>, n: nat) -> nat
    decreases n,
{
    if n == 0 {
        0
    } else {
        fadd(total(v, (n - 1) as nat), v[n - 1])
    }
}

/// The value that the identity at an index of a path is hashed to.
pub open spec fn level_hash(identity: Seq<String>, i: int) -> nat {
    hash_to_fr_value(identity[i]@)
}

/// The first path is a prefix of the second.
pub open spec fn is_prefix(key: Seq<String>, ct: Seq<String>) -> bool {
    &&& key.len() <= ct.len()
    &&& forall|i: int| 0 <= i < key.len() ==> (#[trigger] key[i])@ == ct[i]@
}

/// The public key is the one of the secret key: each secret lifted into the
/// groups.
pub open spec fn is_key_pair(msk: &MSK, mpk: &MPK) -> bool {
    &&& mpk.a@ == msk.alpha@
    &&& mpk.b_g1@ == msk.b@
    &&& mpk.b_g2@ == msk.b@
    &&& mpk.b_0_g1@ == msk.b_0@
    &&& mpk.b_0_g2@ == msk.b_0@
    &&& mpk.b_1_g1@ == msk.b_1@
    &&& mpk.b_1_g2@ == msk.b_1@
}

/// The user key is the one that the master secret gives the path with the
/// randomness `rs` and the shares `lambdas` of the secret.
pub open spec fn is_user_key(msk: &MSK, rs: Seq<nat>, lambdas: Seq<nat>, usk: &USK) -> bool {
    let n = usk.identity@.len();
    &&& rs.len() == n
    &&& lambdas.len() == n
    &&& usk.k@.len() == n
    &&& usk.k_1@.len() == n
    &&& usk.k_2@.len() == n
    &&& forall|i: int|
        0 <= i < n ==> {
            &&& (#[trigger] usk.k@[i])@ == rs[i]
            &&& usk.k_1@[i]@ == fadd(lambdas[i], fmul(rs[i], msk.b@))
            &&& usk.k_2@[i]@ == fmul(
                rs[i],
                fadd(msk.b_0@, fmul(level_hash(usk.identity@, i), msk.b_1@)),
            )
        }
}

/// The ciphertext is the one that the public key gives the message and the
/// path with the randomness `s` and `ss`.
pub open spec fn is_ciphertext(mpk: &MPK, msg: nat, s: nat, ss: Seq<nat>, ct: &CT) -> bool {
    let n = ct.identity@.len();
    &&& ss.len() == n
    &&& ct.msg@ == fadd(fmul(mpk.a@, s), msg)
    &&& ct.c@ == s
    &&& ct.c_i@.len() == n
    &&& ct.c_i_alt@.len() == n
    &&& forall|i: int|
        0 <= i < n ==> {
            &&& (#[trigger] ct.c_i_alt@[i])@ == ss[i]
            &&& ct.c_i@[i]@ == fadd(
                fmul(mpk.b_g1@, s),
                fmul(
                    fadd(mpk.b_0_g1@, fmul(mpk.b_1_g1@, level_hash(ct.identity@, i))),
                    ss[i],
                ),
            )
        }
}

/// The exponent of the product of pairings of a ciphertext with the first
/// `n` levels of a user key.
pub open spec fn paired(usk: &USK, ct: &CT, n: nat) -> nat
    decreases n,
{
    if n == 0 {
        fmul(ct.c@, total(g2s(usk.k_1@), usk.k_1@.len()))
    } else {
        fadd(
            fadd(paired(usk, ct, (n - 1) as nat), fmul(fneg(ct.c_i@[n - 1]@), usk.k@[n - 1]@)),
            fmul(ct.c_i_alt@[n - 1]@, usk.k_2@[n - 1]@),
        )
    }
}

/// What a user key opens a ciphertext to: nothing where its path is no
/// prefix of the path of the ciphertext, else the exponent of the message
/// divided by the product of pairings.
pub open spec fn opened(usk: &USK, ct: &CT) -> Option<nat> {
    if is_prefix(usk.identity@, ct.identity@) {
        Some(fadd(ct.msg@, fneg(paired(usk, ct, usk.identity@.len()))))
    } else {
        None
    }
}

/// The user key is the one that delegation makes from `old` for the path
/// extended by one identity, with the randomness `rs` and `lambdas`.
pub open spec fn is_delegated(
    mpk: &MPK,
    old: &USK,
    rs: Seq<nat>,
    lambdas: Seq<nat>,
    usk: &USK,
) -> bool {
    let n = old.identity@.len() as int;
    &&& rs.len() == n + 1
    &&& lambdas.len() == n
    &&& usk.identity@.len() == n + 1
    &&& usk.k@.len() == n + 1
    &&& usk.k_1@.len() == n + 1
    &&& usk.k_2@.len() == n + 1
    &&& forall|i: int| 0 <= i < n ==> (#[trigger] usk.identity@[i])@ == old.identity@[i]@
    &&& forall|i: int|
        0 <= i < n ==> {
            &&& (#[trigger] usk.k@[i])@ == fadd(old.k@[i]@, rs[i])
            &&& usk.k_1@[i]@ == fadd(fadd(old.k_1@[i]@, lambdas[i]), fmul(mpk.b_g2@, rs[i]))
            &&& usk.k_2@[i]@ == fadd(
                fadd(old.k_2@[i]@, fmul(mpk.b_0_g2@, rs[i])),
                fmul(mpk.b_1_g2@, fmul(level_hash(usk.identity@, i), rs[i])),
            )
        }
    &&& usk.k@[n]@ == rs[n]
    &&& usk.k_1@[n]@ == fadd(fneg(total(lambdas, n as nat)), fmul(mpk.b_g2@, rs[n]))
    &&& usk.k_2@[n]@ == fadd(
        fmul(mpk.b_0_g2@, rs[n]),
        fmul(mpk.b_1_g2@, fmul(level_hash(usk.identity@, n), rs[n])),
    )
}

/// `n` fresh field elements.
pub fn sample_fr(n: usize) -> (r: Vector)
    ensures
        r@.len() == n,
{
    let mut result: Vector = Vec::new();
    let mut i: usize = 0;
    while i < n
        invariant
            i <= n,
            result@.len() == i,
        decreases n - i,
    {
        result.push(random_field_element());
        i += 1;
    }
    result
}

/// The sum of the entries of a vector.
pub fn sum_fr(v: &Vector) -> (r: FieldElement)
    ensures
        r@ == total(scalars(v@), v@.len()),
{
    let mut sum = FieldElement::zero();
    let mut i: usize = 0;
    while i < v.len()
        invariant
            i <= v@.len(),
            sum@ == total(scalars(v@), i as nat),
        decreases v.len() - i,
    {
        sum = sum.plus(&v[i]);
        i += 1;
    }
    sum
}

/// The sum of the points of a vector over G2.
pub fn sum_g2(v: &Vec<G2>) -> (r: G2)
    ensures
        r@ == total(g2s(v@), v@.len()),
{
    let mut sum = G2::zero();
    let mut i: usize = 0;
    while i < v.len()
        invariant
            i <= v@.len(),
            sum@ == total(g2s(v@), i as nat),
        decreases v.len() - i,
    {
        sum = sum.plus(&v[i]);
        i += 1;
    }
    sum
}

/// A value less another, plus that other, is the value.
pub proof fn lemma_restore(a: nat, s: nat)
    requires
        a < scalar_modulus(),
    ensures
        fadd(fadd(a, fneg(s)), s) == a,
{
    let (ai, si) = (a as int, s as int);
    lemma_negation_congruent(s);
    lemma_fadd_congruent(a, fneg(s));
    lemma_congruent_add(ai, ai, fneg(s) as int, -si);
    lemma_fadd_congruent(fadd(a, fneg(s)), s);
    lemma_congruent_add(fadd(a, fneg(s)) as int, ai + (-si), si, si);
    assert(ai + (-si) + si == ai);
    lemma_congruent_small(fadd(fadd(a, fneg(s)), s), a);
}

/// The sum of a vector that starts with `first` is `first` plus the sum of
/// the rest.
pub proof fn lemma_total_split(first: nat, rest: Seq<nat>, n: nat)
    requires
        first < scalar_modulus(),
        n <= rest.len(),
    ensures
        total(seq![first] + rest, n + 1) == fadd(first, total(rest, n)),
    decreases n,
{
    let all = seq![first] + rest;
    lemma_modulus_large();
    if n == 0 {
        assert(all[0] == first);
        assert(total(all, 0) == 0);
        lemma_fadd_zero(first);
    } else {
        lemma_total_split(first, rest, (n - 1) as nat);
        assert(all[n as int] == rest[n - 1]);
        lemma_fadd_associates(first, total(rest, (n - 1) as nat), rest[n - 1]);
    }
}

/// Shares of a secret: the given ones, preceded by the one that makes the
/// sum of them all the secret.
pub fn share_secret_with(secret: FieldElement, rest: &Vector) -> (r: Vector)
    ensures
        r@.len() == rest@.len() + 1,
        forall|i: int| 0 <= i < rest@.len() ==> r@[i + 1] == rest@[i],
        total(scalars(r@), r@.len()) == secret@,
{
    let sum = sum_fr(rest);
    let first = secret.minus(&sum);
    let mut shares: Vector = Vec::new();
    shares.push(first);
    let mut i: usize = 0;
    while i < rest.len()
        invariant
            i <= rest@.len(),
            shares@.len() == i + 1,
            shares@[0] == first,
            forall|t: int| 0 <= t < i ==> shares@[t + 1] == rest@[t],
        decreases rest.len() - i,
    {
        shares.push(rest[i]);
        i += 1;
    }
    proof {
        lemma_value_bound(first);
        lemma_value_bound(secret);
        assert(scalars(shares@) =~= seq![first@] + scalars(rest@));
        lemma_total_split(first@, scalars(rest@), rest@.len());
        lemma_restore(secret@, sum@);
    }
    shares
}

/// Fresh shares of a secret: `n` of them, or one where `n` is zero, whose
/// sum is the secret.
pub fn share_secret(secret: FieldElement, n: usize) -> (r: Vector)
    ensures
        r@.len() == if n == 0 { 1nat } else { n as nat },
        total(scalars(r@), r@.len()) == secret@,
{
    let rest = sample_fr(if n == 0 { 0 } else { n - 1 });
    share_secret_with(secret, &rest)
}

/// Whether a key for the first path may open a ciphertext for the second:
/// whether the first is a prefix of the second.
pub fn can_decrypt(key: &Vec<String>, ct: &Vec<String>) -> (r: bool)
    ensures
        r == is_prefix(key@, ct@),
{
    if key.len() > ct.len() {
        return false;
    }
    let mut i: usize = 0;
    while i < key.len()
        invariant
            i <= key@.len(),
            key@.len() <= ct@.len(),
            forall|t: int| 0 <= t < i ==> (#[trigger] key@[t])@ == ct@[t]@,
        decreases key.len() - i,
    {
        if key[i] != ct[i] {
            return false;
        }
        i += 1;
    }
    true
}

impl LW {
    /// The scheme.
    pub fn new() -> (r: LW) {
        LW {  }
    }

    /// The key pair for the given secrets.
    pub fn setup_with(
        &self,
        alpha: FieldElement,
        b: FieldElement,
        b_0: FieldElement,
        b_1: FieldElement,
    ) -> (r: (MSK, MPK))
        ensures
            r.0.alpha == alpha,
            r.0.b == b,
            r.0.b_0 == b_0,
            r.0.b_1 == b_1,
            is_key_pair(&r.0, &r.1),
    {
        let msk = MSK { alpha, b, b_0, b_1 };
        let g1 = G1::generator();
        let g2 = G2::generator();
        proof {
            lemma_value_bound(alpha);
            lemma_value_bound(b);
            lemma_value_bound(b_0);
            lemma_value_bound(b_1);
        }
        let mpk = MPK {
            a: GTElement::pair(&g1.times(&alpha), &g2),
            b_g1: g1.times(&b),
            b_g2: g2.times(&b),
            b_0_g1: g1.times(&b_0),
            b_0_g2: g2.times(&b_0),
            b_1_g1: g1.times(&b_1),
            b_1_g2: g2.times(&b_1),
        };
        (msk, mpk)
    }

    /// A fresh key pair.
    pub fn setup(&self) -> (r: (MSK, MPK))
        ensures
            is_key_pair(&r.0, &r.1),
    {
        let alpha = random_field_element();
        let b = random_field_element();
        let b_0 = random_field_element();
        let b_1 = random_field_element();
        self.setup_with(alpha, b, b_0, b_1)
    }

    /// The user key of the path, made with the randomness `rs` and the
    /// shares `lambdas`.
    pub fn keygen_with(&self, rs: &Vector, lambdas: &Vector, msk: &MSK, identity: Vec<String>) -> (usk:
        USK)
        requires
            identity@.len() > 0,
            rs@.len() == identity@.len(),
            lambdas@.len() == identity@.len(),
        ensures
            usk.identity@ == identity@,
            is_user_key(msk, scalars(rs@), scalars(lambdas@), &usk),
    {
        let n_k = identity.len();
        let g2 = G2::generator();
        let mut k: Vec<G2> = Vec::new();
        let mut k_1: Vec<G2> = Vec::new();
        let mut k_2: Vec<G2> = Vec::new();
        let mut i: usize = 0;
        while i < n_k
            invariant
                i <= n_k,
                n_k == identity@.len(),
                rs@.len() == n_k,
                lambdas@.len() == n_k,
                g2@ == 1,
                k@.len() == i,
                k_1@.len() == i,
                k_2@.len() == i,
                forall|t: int|
                    0 <= t < i ==> {
                        &&& (#[trigger] k@[t])@ == rs@[t]@
                        &&& k_1@[t]@ == fadd(lambdas@[t]@, fmul(rs@[t]@, msk.b@))
                        &&& k_2@[t]@ == fmul(
                            rs@[t]@,
                            fadd(msk.b_0@, fmul(level_hash(identity@, t), msk.b_1@)),
                        )
                    },
            decreases n_k - i,
        {
            let xid = hash_to_fr(identity[i].as_str());
            let e = lambdas[i].plus(&rs[i].times(&msk.b));
            let e_2 = rs[i].times(&msk.b_0.plus(&xid.times(&msk.b_1)));
            proof {
                lemma_value_bound(rs@[i as int]);
                lemma_value_bound(e);
                lemma_value_bound(e_2);
            }
            k.push(g2.times(&rs[i]));
            k_1.push(g2.times(&e));
            k_2.push(g2.times(&e_2));
            i += 1;
        }
        USK { identity, k, k_1, k_2 }
    }

    /// A user key of the path, made with fresh randomness and fresh shares
    /// of the master secret.
    pub fn keygen(&self, msk: &MSK, identity: Vec<String>) -> (usk: USK)
        requires
            identity@.len() > 0,
        ensures
            usk.identity@ == identity@,
            exists|rs: Seq<nat>, lambdas: Seq<nat>|
                lambdas.len() == identity@.len() && total(lambdas, lambdas.len()) == msk.alpha@
                    && is_user_key(msk, rs, lambdas, &usk),
    {
        let n_k = identity.len();
        let rs = sample_fr(n_k);
        let lambdas = share_secret(msk.alpha, n_k);
        let usk = self.keygen_with(&rs, &lambdas, msk, identity);
        assert(scalars(lambdas@).len() == n_k && total(
            scalars(lambdas@),
            scalars(lambdas@).len(),
        ) == msk.alpha@ && is_user_key(msk, scalars(rs@), scalars(lambdas@), &usk));
        usk
    }

    /// The ciphertext of the message for the path, made with the
    /// randomness `s` and `ss`.
    pub fn encrypt_with(
        &self,
        s: FieldElement,
        ss: &Vector,
        msg: &GTElement,
        mpk: &MPK,
        identity: Vec<String>,
    ) -> (ct: CT)
        requires
            identity@.len() > 0,
            ss@.len() == identity@.len(),
        ensures
            ct.identity@ == identity@,
            is_ciphertext(mpk, msg@, s@, scalars(ss@), &ct),
    {
        let n_c = identity.len();
        let g1 = G1::generator();
        let mut c_i: Vec<G1> = Vec::new();
        let mut c_i_alt: Vec<G1> = Vec::new();
        let mut i: usize = 0;
        while i < n_c
            invariant
                i <= n_c,
                n_c == identity@.len(),
                ss@.len() == n_c,
                g1@ == 1,
                c_i@.len() == i,
                c_i_alt@.len() == i,
                forall|t: int|
                    0 <= t < i ==> {
                        &&& (#[trigger] c_i_alt@[t])@ == ss@[t]@
                        &&& c_i@[t]@ == fadd(
                            fmul(mpk.b_g1@, s@),
                            fmul(
                                fadd(mpk.b_0_g1@, fmul(mpk.b_1_g1@, level_hash(identity@, t))),
                                ss@[t]@,
                            ),
                        )
                    },
            decreases n_c - i,
        {
            let xid = hash_to_fr(identity[i].as_str());
            let base = mpk.b_0_g1.plus(&mpk.b_1_g1.times(&xid));
            proof {
                lemma_value_bound(ss@[i as int]);
            }
            c_i.push(mpk.b_g1.times(&s).plus(&base.times(&ss[i])));
            c_i_alt.push(g1.times(&ss[i]));
            i += 1;
        }
        proof {
            lemma_value_bound(s);
        }
        CT { identity, msg: mpk.a.pow(&s).times(msg), c: g1.times(&s), c_i, c_i_alt }
    }

    /// A ciphertext of the message for the path, made with fresh randomness.
    pub fn encrypt(&self, msg: &GTElement, mpk: &MPK, identity: Vec<String>) -> (ct: CT)
        requires
            identity@.len() > 0,
        ensures
            ct.identity@ == identity@,
            exists|s: nat, ss: Seq<nat>| is_ciphertext(mpk, msg@, s, ss, &ct),
    {
        let n_c = identity.len();
        let s = random_field_element();
        let ss = sample_fr(n_c);
        let ct = self.encrypt_with(s, &ss, msg, mpk, identity);
        assert(is_ciphertext(mpk, msg@, s@, scalars(ss@), &ct));
        ct
    }

    /// The key of the path extended by one identity, made from the key of
    /// the path with the randomness `rs` and `lambdas`.
    pub fn delegate_with(
        &self,
        rs: &Vector,
        lambdas: &Vector,
        mpk: &MPK,
        usk: &USK,
        identity: Vec<String>,
        identity_extension: String,
    ) -> (r: USK)
        requires
            identity@.len() > 0,
            identity@.len() < usize::MAX,
            usk.identity@.len() == identity@.len(),
            forall|i: int| 0 <= i < identity@.len() ==> (#[trigger] identity@[i])@ == usk.identity@[i]@,
            usk.k@.len() == identity@.len(),
            usk.k_1@.len() == identity@.len(),
            usk.k_2@.len() == identity@.len(),
            rs@.len() == identity@.len() + 1,
            lambdas@.len() == identity@.len(),
        ensures
            r.identity@ == identity@.push(identity_extension),
            is_delegated(mpk, usk, scalars(rs@), scalars(lambdas@), &r),
    {
        let mut new_identity = identity;
        new_identity.push(identity_extension);
        let new_k = update_k(usk, rs);
        let new_k1 = update_k1(mpk, usk, rs, lambdas);
        let new_k2 = update_k2(mpk, usk, rs, &new_identity);
        USK { identity: new_identity, k: new_k, k_1: new_k1, k_2: new_k2 }
    }

    /// A key of the path extended by one identity, made from the key of the
    /// path with fresh randomness.
    pub fn delegate(
        &self,
        mpk: &MPK,
        usk: &USK,
        identity: Vec<String>,
        identity_extension: String,
    ) -> (r: USK)
        requires
            identity@.len() > 0,
            identity@.len() < usize::MAX,
            usk.identity@.len() == identity@.len(),
            forall|i: int| 0 <= i < identity@.len() ==> (#[trigger] identity@[i])@ == usk.identity@[i]@,
            usk.k@.len() == identity@.len(),
            usk.k_1@.len() == identity@.len(),
            usk.k_2@.len() == identity@.len(),
        ensures
            r.identity@ == identity@.push(identity_extension),
            exists|rs: Seq<nat>, lambdas: Seq<nat>| is_delegated(mpk, usk, rs, lambdas, &r),
    {
        let n_k = identity.len();
        let lambdas = sample_fr(n_k);
        let rs = sample_fr(n_k + 1);
        let r = self.delegate_with(&rs, &lambdas, mpk, usk, identity, identity_extension);
        assert(is_delegated(mpk, usk, scalars(rs@), scalars(lambdas@), &r));
        r
    }

    /// The message that the user key recovers from the ciphertext, or
    /// nothing where the path of the key is no prefix of the path of the
    /// ciphertext.
    pub fn decrypt(&self, usk: &USK, ct: &CT) -> (r: Option<GTElement>)
        requires
            usk.identity@.len() > 0,
            usk.k@.len() == usk.identity@.len(),
            usk.k_2@.len() == usk.identity@.len(),
            ct.c_i@.len() == ct.identity@.len(),
            ct.c_i_alt@.len() == ct.identity@.len(),
        ensures
            crate::ibkem::exponent_of(r) == opened(usk, ct),
    {
        let n_k = usk.identity.len();
        if !can_decrypt(&usk.identity, &ct.identity) {
            return None;
        }
        let sum = sum_g2(&usk.k_1);
        let mut result = GTElement::pair(&ct.c, &sum);
        let mut i: usize = 0;
        while i < n_k
            invariant
                i <= n_k,
                n_k == usk.identity@.len(),
                n_k <= ct.identity@.len(),
                usk.k@.len() == n_k,
                usk.k_2@.len() == n_k,
                ct.c_i@.len() == ct.identity@.len(),
                ct.c_i_alt@.len() == ct.identity@.len(),
                result@ == paired(usk, ct, i as nat),
            decreases n_k - i,
        {
            result = result.times(&GTElement::pair(&ct.c_i[i].negated(), &usk.k[i]));
            result = result.times(&GTElement::pair(&ct.c_i_alt[i], &usk.k_2[i]));
            i += 1;
        }
        match result.inverse() {
            Some(inverse) => Some(ct.msg.times(&inverse)),
            None => None,
        }
    }
}

/// The first part of a delegated key: each point of the old one plus fresh
/// randomness, and one more point of fresh randomness alone.
pub fn update_k(usk: &USK, rs: &Vector) -> (r: Vec<G2>)
    requires
        rs@.len() == usk.k@.len() + 1,
    ensures
        r@.len() == usk.k@.len() + 1,
        forall|i: int| 0 <= i < usk.k@.len() ==> (#[trigger] r@[i])@ == fadd(usk.k@[i]@, rs@[i]@),
        r@[usk.k@.len() as int]@ == rs@[usk.k@.len() as int]@,
{
    let g2 = G2::generator();
    let n_k = usk.k.len();
    let mut new_k: Vec<G2> = Vec::new();
    let mut i: usize = 0;
    while i < n_k
        invariant
            i <= n_k,
            n_k == usk.k@.len(),
            rs@.len() == n_k + 1,
            g2@ == 1,
            new_k@.len() == i,
            forall|t: int| 0 <= t < i ==> (#[trigger] new_k@[t])@ == fadd(usk.k@[t]@, rs@[t]@),
        decreases n_k - i,
    {
        proof {
            lemma_value_bound(rs@[i as int]);
        }
        new_k.push(usk.k[i].plus(&g2.times(&rs[i])));
        i += 1;
    }
    proof {
        lemma_value_bound(rs@[n_k as int]);
    }
    new_k.push(g2.times(&rs[n_k]));
    new_k
}

/// The second part of a delegated key: each point of the old one plus a
/// fresh share of zero and fresh randomness, and one more point that
/// makes the shares sum to zero.
pub fn update_k1(mpk: &MPK, usk: &USK, rs: &Vector, lambdas: &Vector) -> (r: Vec<G2>)
    requires
        rs@.len() == usk.k_1@.len() + 1,
        lambdas@.len() == usk.k_1@.len(),
    ensures
        r@.len() == usk.k_1@.len() + 1,
        forall|i: int|
            0 <= i < usk.k_1@.len() ==> (#[trigger] r@[i])@ == fadd(
                fadd(usk.k_1@[i]@, lambdas@[i]@),
                fmul(mpk.b_g2@, rs@[i]@),
            ),
        r@[usk.k_1@.len() as int]@ == fadd(
            fneg(total(scalars(lambdas@), lambdas@.len())),
            fmul(mpk.b_g2@, rs@[usk.k_1@.len() as int]@),
        ),
{
    let g2 = G2::generator();
    let sum = sum_fr(lambdas);
    let n_k = usk.k_1.len();
    let mut new_k1: Vec<G2> = Vec::new();
    let mut i: usize = 0;
    while i < n_k
        invariant
            i <= n_k,
            n_k == usk.k_1@.len(),
            rs@.len() == n_k + 1,
            lambdas@.len() == n_k,
            g2@ == 1,
            new_k1@.len() == i,
            forall|t: int|
                0 <= t < i ==> (#[trigger] new_k1@[t])@ == fadd(
                    fadd(usk.k_1@[t]@, lambdas@[t]@),
                    fmul(mpk.b_g2@, rs@[t]@),
                ),
        decreases n_k - i,
    {
        let k_2 = g2.times(&lambdas[i]);
        let k_3 = mpk.b_g2.times(&rs[i]);
        proof {
            lemma_value_bound(lambdas@[i as int]);
        }
        new_k1.push(usk.k_1[i].plus(&k_2).plus(&k_3));
        i += 1;
    }
    let negated = sum.negated();
    proof {
        lemma_value_bound(negated);
    }
    new_k1.push(g2.times(&negated).plus(&mpk.b_g2.times(&rs[n_k])));
    new_k1
}

/// The third part of a delegated key: each point of the old one plus fresh
/// randomness bound to the identity of its level, and one more point for
/// the new level.
pub fn update_k2(mpk: &MPK, usk: &USK, rs: &Vector, new_identity: &Vec<String>) -> (r: Vec<G2>)
    requires
        rs@.len() == usk.k_2@.len() + 1,
        new_identity@.len() == usk.k_2@.len() + 1,
    ensures
        r@.len() == usk.k_2@.len() + 1,
        forall|i: int|
            0 <= i < usk.k_2@.len() ==> (#[trigger] r@[i])@ == fadd(
                fadd(usk.k_2@[i]@, fmul(mpk.b_0_g2@, rs@[i]@)),
                fmul(mpk.b_1_g2@, fmul(level_hash(new_identity@, i), rs@[i]@)),
            ),
        r@[usk.k_2@.len() as int]@ == fadd(
            fmul(mpk.b_0_g2@, rs@[usk.k_2@.len() as int]@),
            fmul(
                mpk.b_1_g2@,
                fmul(level_hash(new_identity@, usk.k_2@.len() as int), rs@[usk.k_2@.len() as int]@),
            ),
        ),
{
    let n_k = usk.k_2.len();
    let mut new_k2: Vec<G2> = Vec::new();
    let mut i: usize = 0;
    while i < n_k
        invariant
            i <= n_k,
            n_k == usk.k_2@.len(),
            rs@.len() == n_k + 1,
            new_identity@.len() == n_k + 1,
            new_k2@.len() == i,
            forall|t: int|
                0 <= t < i ==> (#[trigger] new_k2@[t])@ == fadd(
                    fadd(usk.k_2@[t]@, fmul(mpk.b_0_g2@, rs@[t]@)),
                    fmul(mpk.b_1_g2@, fmul(level_hash(new_identity@, t), rs@[t]@)),
                ),
        decreases n_k - i,
    {
        let k_2 = mpk.b_0_g2.times(&rs[i]);
        let xid = hash_to_fr(new_identity[i].as_str());
        let k_3 = mpk.b_1_g2.times(&xid.times(&rs[i]));
        new_k2.push(usk.k_2[i].plus(&k_2).plus(&k_3));
        i += 1;
    }
    let tmp1 = mpk.b_0_g2.times(&rs[n_k]);
    let xid = hash_to_fr(new_identity[n_k].as_str());
    let tmp2 = mpk.b_1_g2.times(&xid.times(&rs[n_k]));
    new_k2.push(tmp1.plus(&tmp2));
    new_k2
}

/// The sum of the first `n` entries as an integer.
pub open spec fn plain_sum(v: Seq<nat>, n: nat) -> int
    decreases n,
{
    if n == 0 {
        0
    } else {
        plain_sum(v, (n - 1) as nat) + v[n - 1]
    }
}

/// A sum in the field is congruent to the sum of the integers.
pub proof fn lemma_total_evaluates(v: Seq<nat>, n: nat)
    ensures
        congruent(total(v, n) as int, plain_sum(v, n)),
    decreases n,
{
    if n > 0 {
        lemma_total_evaluates(v, (n - 1) as nat);
        lemma_sum_evaluates(
            total(v, (n - 1) as nat),
            v[n - 1],
            plain_sum(v, (n - 1) as nat),
            v[n - 1] as int,
        );
    }
}

/// The sum of the second parts of a user key is the sum of the shares plus
/// `b` times the sum of the randomness.
pub proof fn lemma_shares_total(msk: &MSK, rs: Seq<nat>, lambdas: Seq<nat>, usk: &USK, n: nat)
    requires
        is_user_key(msk, rs, lambdas, usk),
        n <= usk.identity@.len(),
    ensures
        congruent(
            total(g2s(usk.k_1@), n) as int,
            plain_sum(lambdas, n) + msk.b@ * plain_sum(rs, n),
        ),
    decreases n,
{
    if n > 0 {
        let h = (n - 1) as nat;
        lemma_shares_total(msk, rs, lambdas, usk, h);
        let (li, ri, bi) = (lambdas[h as int] as int, rs[h as int] as int, msk.b@ as int);
        assert(usk.k@[h as int]@ == rs[h as int]);
        lemma_product_evaluates(rs[h as int], msk.b@, ri, bi);
        lemma_sum_evaluates(lambdas[h as int], fmul(rs[h as int], msk.b@), li, ri * bi);
        lemma_sum_evaluates(
            total(g2s(usk.k_1@), h),
            g2s(usk.k_1@)[h as int],
            plain_sum(lambdas, h) + bi * plain_sum(rs, h),
            li + ri * bi,
        );
        assert(plain_sum(lambdas, h) + bi * plain_sum(rs, h) + (li + ri * bi) == plain_sum(
            lambdas,
            n,
        ) + bi * plain_sum(rs, n)) by (nonlinear_arith)
            requires
                plain_sum(lambdas, n) == plain_sum(lambdas, h) + li,
                plain_sum(rs, n) == plain_sum(rs, h) + ri,
        ;
    }
}

/// The pairings of a ciphertext with the first `n` levels of a user key
/// whose path is a prefix of the path of the ciphertext: all that depends
/// on the randomness of those levels cancels.
pub proof fn lemma_levels_cancel(
    msk: &MSK,
    mpk: &MPK,
    rs: Seq<nat>,
    lambdas: Seq<nat>,
    usk: &USK,
    s: nat,
    ss: Seq<nat>,
    msg: nat,
    ct: &CT,
    n: nat,
)
    requires
        is_key_pair(msk, mpk),
        is_user_key(msk, rs, lambdas, usk),
        is_ciphertext(mpk, msg, s, ss, ct),
        is_prefix(usk.identity@, ct.identity@),
        n <= usk.identity@.len(),
    ensures
        congruent(
            paired(usk, ct, n) as int,
            s * (plain_sum(lambdas, usk.identity@.len()) + msk.b@ * plain_sum(
                rs,
                usk.identity@.len(),
            )) - msk.b@ * s * plain_sum(rs, n),
        ),
    decreases n,
{
    let levels = usk.identity@.len();
    let (si, bi) = (s as int, msk.b@ as int);
    let all = plain_sum(lambdas, levels) + bi * plain_sum(rs, levels);
    if n == 0 {
        lemma_shares_total(msk, rs, lambdas, usk, levels);
        lemma_product_evaluates(ct.c@, total(g2s(usk.k_1@), levels), si, all);
        assert(bi * si * 0 == 0) by (nonlinear_arith);
    } else {
        let h = (n - 1) as nat;
        let j = h as int;
        lemma_levels_cancel(msk, mpk, rs, lambdas, usk, s, ss, msg, ct, h);
        let x = level_hash(usk.identity@, j);
        assert(usk.identity@[j]@ == ct.identity@[j]@);
        assert(level_hash(ct.identity@, j) == x);
        let (xi, ri, ti) = (x as int, rs[j] as int, ss[j] as int);
        let (b0, b1) = (msk.b_0@ as int, msk.b_1@ as int);
        assert(usk.k@[j]@ == rs[j]);
        assert(ct.c_i_alt@[j]@ == ss[j]);
        // The point of the ciphertext at this level.
        lemma_product_evaluates(mpk.b_g1@, s, bi, si);
        lemma_product_evaluates(mpk.b_1_g1@, x, b1, xi);
        lemma_sum_evaluates(mpk.b_0_g1@, fmul(mpk.b_1_g1@, x), b0, b1 * xi);
        lemma_product_evaluates(
            fadd(mpk.b_0_g1@, fmul(mpk.b_1_g1@, x)),
            ss[j],
            b0 + b1 * xi,
            ti,
        );
        lemma_sum_evaluates(
            fmul(mpk.b_g1@, s),
            fmul(fadd(mpk.b_0_g1@, fmul(mpk.b_1_g1@, x)), ss[j]),
            bi * si,
            (b0 + b1 * xi) * ti,
        );
        let ci = bi * si + (b0 + b1 * xi) * ti;
        // The third part of the user key at this level.
        lemma_product_evaluates(x, msk.b_1@, xi, b1);
        lemma_sum_evaluates(msk.b_0@, fmul(x, msk.b_1@), b0, xi * b1);
        lemma_product_evaluates(rs[j], fadd(msk.b_0@, fmul(x, msk.b_1@)), ri, b0 + xi * b1);
        let k2 = ri * (b0 + xi * b1);
        // The two pairings of this level.
        lemma_negation_evaluates(ct.c_i@[j]@, ci);
        lemma_product_evaluates(fneg(ct.c_i@[j]@), usk.k@[j]@, -ci, ri);
        lemma_product_evaluates(ct.c_i_alt@[j]@, usk.k_2@[j]@, ti, k2);
        let before = all * si - bi * si * plain_sum(rs, h);
        assert(si * all - bi * si * plain_sum(rs, h) == before) by (nonlinear_arith)
            requires
                before == all * si - bi * si * plain_sum(rs, h),
        ;
        lemma_sum_evaluates(
            paired(usk, ct, h),
            fmul(fneg(ct.c_i@[j]@), usk.k@[j]@),
            before,
            (-ci) * ri,
        );
        lemma_sum_evaluates(
            fadd(paired(usk, ct, h), fmul(fneg(ct.c_i@[j]@), usk.k@[j]@)),
            fmul(ct.c_i_alt@[j]@, usk.k_2@[j]@),
            before + (-ci) * ri,
            ti * k2,
        );
        assert(before + (-ci) * ri + ti * k2 == si * all - bi * si * plain_sum(rs, n))
            by (nonlinear_arith)
            requires
                before == all * si - bi * si * plain_sum(rs, h),
                plain_sum(rs, n) == plain_sum(rs, h) + ri,
                ci == bi * si + (b0 + b1 * xi) * ti,
                k2 == ri * (b0 + xi * b1),
        ;
    }
}

/// Decryption recovers the message: a user key made from the master secret
/// for a path, with shares whose sum is the master secret, opens a
/// ciphertext made from the public key for any path that its own is a
/// prefix of to the message of the ciphertext, whatever the randomness of
/// the two.
pub proof fn lemma_decrypt_recovers_message(
    msk: MSK,
    mpk: MPK,
    rs: Seq<nat>,
    lambdas: Seq<nat>,
    usk: USK,
    s: nat,
    ss: Seq<nat>,
    msg: GTElement,
    ct: CT,
)
    requires
        is_key_pair(&msk, &mpk),
        is_user_key(&msk, rs, lambdas, &usk),
        total(lambdas, usk.identity@.len()) == msk.alpha@,
        is_ciphertext(&mpk, msg@, s, ss, &ct),
        is_prefix(usk.identity@, ct.identity@),
    ensures
        opened(&usk, &ct) == Some(msg@),
{
    lemma_modulus_large();
    let levels = usk.identity@.len();
    let (al, si, bi, mi) = (msk.alpha@ as int, s as int, msk.b@ as int, msg@ as int);
    lemma_levels_cancel(&msk, &mpk, rs, lambdas, &usk, s, ss, msg@, &ct, levels);
    lemma_total_evaluates(lambdas, levels);
    let shares = plain_sum(lambdas, levels);
    let noise = plain_sum(rs, levels);
    let left = si * (shares + bi * noise) - bi * si * noise;
    assert(left == si * shares) by (nonlinear_arith)
        requires
            left == si * (shares + bi * noise) - bi * si * noise,
    ;
    crate::algebra::lemma_congruent_mul(si, si, shares, al);
    lemma_negation_evaluates(paired(&usk, &ct, levels), si * al);
    lemma_product_evaluates(mpk.a@, s, al, si);
    lemma_sum_evaluates(fmul(mpk.a@, s), msg@, al * si, mi);
    lemma_sum_evaluates(ct.msg@, fneg(paired(&usk, &ct, levels)), al * si + mi, -(si * al));
    assert(al * si + mi + -(si * al) == mi) by (nonlinear_arith);
    vstd::arithmetic::div_mod::lemma_mod_bound(
        crate::types::gt_exponent(msg) as int,
        scalar_modulus() as int,
    );
    lemma_congruent_small(
        fadd(ct.msg@, fneg(paired(&usk, &ct, levels))),
        msg@,
    );
}

/// The randomness of a delegated key: that of the key it was made from
/// plus the fresh one, level by level, and the fresh one alone at the new
/// level.
pub open spec fn delegated_randomness(rs: Seq<nat>, fresh: Seq<nat>) -> Seq<nat> {
    Seq::new(fresh.len(), |i: int| if i < rs.len() { fadd(rs[i], fresh[i]) } else { fresh[i] })
}

/// The shares of a delegated key: those of the key it was made from plus
/// the fresh ones, level by level, and at the new level what makes the
/// fresh ones sum to zero.
pub open spec fn delegated_shares(lambdas: Seq<nat>, fresh: Seq<nat>) -> Seq<nat> {
    Seq::new(
        lambdas.len() + 1,
        |i: int|
            if i < lambdas.len() {
                fadd(lambdas[i], fresh[i])
            } else {
                fneg(total(fresh, lambdas.len()))
            },
    )
}

/// The first `n` shares of a delegated key sum to the sums of the old and
/// of the fresh ones.
pub proof fn lemma_delegated_total(lambdas: Seq<nat>, fresh: Seq<nat>, n: nat)
    requires
        n <= lambdas.len(),
        fresh.len() == lambdas.len(),
    ensures
        congruent(
            total(delegated_shares(lambdas, fresh), n) as int,
            plain_sum(lambdas, n) + plain_sum(fresh, n),
        ),
    decreases n,
{
    if n > 0 {
        let h = (n - 1) as nat;
        lemma_delegated_total(lambdas, fresh, h);
        lemma_sum_evaluates(
            lambdas[h as int],
            fresh[h as int],
            lambdas[h as int] as int,
            fresh[h as int] as int,
        );
        lemma_sum_evaluates(
            total(delegated_shares(lambdas, fresh), h),
            delegated_shares(lambdas, fresh)[h as int],
            plain_sum(lambdas, h) + plain_sum(fresh, h),
            (lambdas[h as int] + fresh[h as int]) as int,
        );
    }
}

/// A delegated key is a user key of the extended path: made from a user key
/// of a path, it is the user key that the master secret gives the extended
/// path for the combined randomness and shares, and the shares still sum to
/// what they summed to.
pub proof fn lemma_delegated_is_user_key(
    msk: MSK,
    mpk: MPK,
    rs: Seq<nat>,
    lambdas: Seq<nat>,
    old: USK,
    fresh_rs: Seq<nat>,
    fresh_lambdas: Seq<nat>,
    usk: USK,
)
    requires
        is_key_pair(&msk, &mpk),
        is_user_key(&msk, rs, lambdas, &old),
        is_delegated(&mpk, &old, fresh_rs, fresh_lambdas, &usk),
    ensures
        is_user_key(
            &msk,
            delegated_randomness(rs, fresh_rs),
            delegated_shares(lambdas, fresh_lambdas),
            &usk,
        ),
        total(delegated_shares(lambdas, fresh_lambdas), usk.identity@.len()) == total(
            lambdas,
            old.identity@.len(),
        ),
{
    lemma_modulus_large();
    let n = old.identity@.len();
    let new_rs = delegated_randomness(rs, fresh_rs);
    let new_lambdas = delegated_shares(lambdas, fresh_lambdas);
    let (b, b0, b1) = (msk.b@ as int, msk.b_0@ as int, msk.b_1@ as int);
    assert forall|i: int| 0 <= i < n + 1 implies {
        &&& (#[trigger] usk.k@[i])@ == new_rs[i]
        &&& usk.k_1@[i]@ == fadd(new_lambdas[i], fmul(new_rs[i], msk.b@))
        &&& usk.k_2@[i]@ == fmul(
            new_rs[i],
            fadd(msk.b_0@, fmul(level_hash(usk.identity@, i), msk.b_1@)),
        )
    } by {
        let x = level_hash(usk.identity@, i);
        let xi = x as int;
        let fr = fresh_rs[i] as int;
        // The hash part of the third entry, as the user key has it.
        lemma_product_evaluates(x, msk.b_1@, xi, b1);
        lemma_sum_evaluates(msk.b_0@, fmul(x, msk.b_1@), b0, xi * b1);
        // The parts that delegation adds at every level.
        lemma_product_evaluates(mpk.b_g2@, fresh_rs[i], b, fr);
        lemma_product_evaluates(mpk.b_0_g2@, fresh_rs[i], b0, fr);
        lemma_product_evaluates(x, fresh_rs[i], xi, fr);
        lemma_product_evaluates(mpk.b_1_g2@, fmul(x, fresh_rs[i]), b1, xi * fr);
        if i < n {
            assert(old.k@[i]@ == rs[i]);
            assert(usk.k@[i]@ == fadd(old.k@[i]@, fresh_rs[i]));
            assert(usk.identity@[i]@ == old.identity@[i]@);
            assert(level_hash(old.identity@, i) == x);
            let (ri, li, fl) = (rs[i] as int, lambdas[i] as int, fresh_lambdas[i] as int);
            lemma_sum_evaluates(rs[i], fresh_rs[i], ri, fr);
            lemma_sum_evaluates(lambdas[i], fresh_lambdas[i], li, fl);
            // The second entry.
            lemma_product_evaluates(rs[i], msk.b@, ri, b);
            lemma_sum_evaluates(lambdas[i], fmul(rs[i], msk.b@), li, ri * b);
            lemma_sum_evaluates(old.k_1@[i]@, fresh_lambdas[i], li + ri * b, fl);
            lemma_sum_evaluates(
                fadd(old.k_1@[i]@, fresh_lambdas[i]),
                fmul(mpk.b_g2@, fresh_rs[i]),
                li + ri * b + fl,
                b * fr,
            );
            lemma_product_evaluates(new_rs[i], msk.b@, ri + fr, b);
            lemma_sum_evaluates(new_lambdas[i], fmul(new_rs[i], msk.b@), li + fl, (ri + fr) * b);
            assert(li + ri * b + fl + b * fr == li + fl + (ri + fr) * b) by (nonlinear_arith);
            lemma_congruent_small(
                usk.k_1@[i]@,
                fadd(new_lambdas[i], fmul(new_rs[i], msk.b@)),
            );
            // The third entry.
            lemma_product_evaluates(
                rs[i],
                fadd(msk.b_0@, fmul(x, msk.b_1@)),
                ri,
                b0 + xi * b1,
            );
            lemma_sum_evaluates(
                old.k_2@[i]@,
                fmul(mpk.b_0_g2@, fresh_rs[i]),
                ri * (b0 + xi * b1),
                b0 * fr,
            );
            lemma_sum_evaluates(
                fadd(old.k_2@[i]@, fmul(mpk.b_0_g2@, fresh_rs[i])),
                fmul(mpk.b_1_g2@, fmul(x, fresh_rs[i])),
                ri * (b0 + xi * b1) + b0 * fr,
                b1 * (xi * fr),
            );
            lemma_product_evaluates(
                new_rs[i],
                fadd(msk.b_0@, fmul(x, msk.b_1@)),
                ri + fr,
                b0 + xi * b1,
            );
            assert(ri * (b0 + xi * b1) + b0 * fr + b1 * (xi * fr) == (ri + fr) * (b0 + xi * b1))
                by (nonlinear_arith);
            lemma_congruent_small(
                usk.k_2@[i]@,
                fmul(new_rs[i], fadd(msk.b_0@, fmul(x, msk.b_1@))),
            );
        } else {
            // The new level.
            let neg = fneg(total(fresh_lambdas, n));
            lemma_negation_evaluates(total(fresh_lambdas, n), total(fresh_lambdas, n) as int);
            lemma_sum_evaluates(neg, fmul(mpk.b_g2@, fresh_rs[i]), neg as int, b * fr);
            lemma_product_evaluates(fresh_rs[i], msk.b@, fr, b);
            lemma_sum_evaluates(neg, fmul(fresh_rs[i], msk.b@), neg as int, fr * b);
            assert(neg + b * fr == neg + fr * b) by (nonlinear_arith);
            lemma_congruent_small(usk.k_1@[i]@, fadd(new_lambdas[i], fmul(new_rs[i], msk.b@)));
            lemma_sum_evaluates(
                fmul(mpk.b_0_g2@, fresh_rs[i]),
                fmul(mpk.b_1_g2@, fmul(x, fresh_rs[i])),
                b0 * fr,
                b1 * (xi * fr),
            );
            lemma_product_evaluates(
                fresh_rs[i],
                fadd(msk.b_0@, fmul(x, msk.b_1@)),
                fr,
                b0 + xi * b1,
            );
            assert(b0 * fr + b1 * (xi * fr) == fr * (b0 + xi * b1)) by (nonlinear_arith);
            lemma_congruent_small(
                usk.k_2@[i]@,
                fmul(new_rs[i], fadd(msk.b_0@, fmul(x, msk.b_1@))),
            );
        }
    }
    // The shares.
    lemma_delegated_total(lambdas, fresh_lambdas, n);
    lemma_total_evaluates(fresh_lambdas, n);
    lemma_total_evaluates(lambdas, n);
    let fresh_total = total(fresh_lambdas, n);
    lemma_negation_evaluates(fresh_total, plain_sum(fresh_lambdas, n));
    lemma_sum_evaluates(
        total(new_lambdas, n),
        new_lambdas[n as int],
        plain_sum(lambdas, n) + plain_sum(fresh_lambdas, n),
        -plain_sum(fresh_lambdas, n),
    );
    assert(plain_sum(lambdas, n) + plain_sum(fresh_lambdas, n) + -plain_sum(fresh_lambdas, n)
        == plain_sum(lambdas, n));
    if n > 0 {
        lemma_field_bound_total(lambdas, n);
    } else {
        vstd::arithmetic::div_mod::lemma_small_mod(0, scalar_modulus());
    }
    lemma_congruent_small(total(new_lambdas, n + 1), total(lambdas, n));
}

/// A sum of at least one entry is below the modulus.
pub proof fn lemma_field_bound_total(v: Seq<nat>, n: nat)
    requires
        n > 0,
    ensures
        total(v, n) < scalar_modulus(),
{
    crate::math::lemma_field_bound(total(v, (n - 1) as nat), v[n - 1]);
}

} // verus!

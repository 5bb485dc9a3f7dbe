//! The identity-based encryption of Boneh and Franklin, for messages of the
//! target group.

use vstd::prelude::*;
use crate::blake3::blake3_digest;
use crate::hashing::{hash_to_g1, identity_domain};
use crate::algebra::{
    lemma_congruent_small, lemma_negation_evaluates, lemma_product_evaluates,
    lemma_sum_evaluates,
};
use crate::ibkem::exponent_of;
use crate::math::{fadd, fmul, fneg, scalar_modulus};
use crate::types::{hashed_point, lemma_value_bound, FieldElement, GTElement, G1, G2};

verus! {

/// The master secret key.
pub struct MSK {
    pub alpha: FieldElement,
}

/// The master public key.
pub struct MPK {
    pub a: GTElement,
}

/// The secret key of one identity.
pub struct USK {
    pub identity: String,
    pub r: G2,
    pub k: G1,
}

/// A ciphertext for one identity.
pub struct CT {
    pub identity: String,
    pub msg: GTElement,
    pub s: G2,
    pub c: G1,
}

/// The scheme.
pub struct BF {}

/// The exponent of the point of G1 that an identity is hashed to.
pub open spec fn hash_to_g1_value(identity: Seq<char>) -> nat {
    hashed_point(identity_domain(), blake3_digest(vstd::utf8::encode_utf8(identity)))
        % scalar_modulus()
}

/// The exponent of the message that a user key recovers from a ciphertext.
pub open spec fn opened_exponent(usk: &USK, ct: &CT) -> nat {
    fadd(ct.msg@, fneg(fadd(fmul(usk.k@, ct.s@), fmul(fneg(ct.c@), usk.r@))))
}

/// What a user key opens a ciphertext to: nothing where the two are for
/// different identities, the exponent of the recovered message otherwise.
pub open spec fn opened(usk: &USK, ct: &CT) -> Option<nat> {
    if usk.identity@ == ct.identity@ {
        Some(opened_exponent(usk, ct))
    } else {
        None
    }
}

/// The user key is the one that the master secret gives its identity with
/// the randomness `r`.
pub open spec fn is_user_key(msk: &MSK, r: nat, usk: &USK) -> bool {
    &&& usk.r@ == r
    &&& usk.k@ == fadd(msk.alpha@, fmul(hash_to_g1_value(usk.identity@), r))
}

/// The ciphertext is the one that the public key gives the message and the
/// identity of the ciphertext with the randomness `s`.
pub open spec fn is_ciphertext(mpk: &MPK, msg: nat, s: nat, ct: &CT) -> bool {
    &&& ct.msg@ == fadd(fmul(mpk.a@, s), msg)
    &&& ct.s@ == s
    &&& ct.c@ == fmul(hash_to_g1_value(ct.identity@), s)
}

impl BF {
    /// The scheme.
    pub fn new() -> (r: BF) {
        BF {  }
    }

    /// The key pair for the given secret.
    pub fn setup_with(&self, alpha: FieldElement) -> (r: (MSK, MPK))
        ensures
            r.0.alpha == alpha,
            r.1.a@ == alpha@,
    {
        let msk = MSK { alpha };
        let g1 = G1::generator();
        let g2 = G2::generator();
        proof {
            lemma_value_bound(alpha);
        }
        let mpk = MPK { a: GTElement::pair(&g1.times(&alpha), &g2) };
        (msk, mpk)
    }

    /// A fresh key pair.
    pub fn setup(&self) -> (r: (MSK, MPK))
        ensures
            r.1.a@ == r.0.alpha@,
    {
        let alpha = FieldElement::random();
        self.setup_with(alpha)
    }

    /// The user key of the identity, made with the randomness `r`.
    pub fn keygen_with(&self, r: FieldElement, msk: &MSK, identity: String) -> (usk: USK)
        ensures
            usk.identity@ == identity@,
            is_user_key(msk, r@, &usk),
    {
        let g1 = G1::generator();
        let g2 = G2::generator();
        let bid = hash_to_g1(identity.as_str());
        proof {
            lemma_value_bound(r);
            lemma_value_bound(msk.alpha);
        }
        USK { identity, r: g2.times(&r), k: g1.times(&msk.alpha).plus(&bid.times(&r)) }
    }

    /// A user key of the identity, made with fresh randomness.
    pub fn keygen(&self, msk: &MSK, identity: String) -> (usk: USK)
        ensures
            usk.identity@ == identity@,
            is_user_key(msk, usk.r@, &usk),
    {
        let r = FieldElement::random();
        self.keygen_with(r, msk, identity)
    }

    /// The ciphertext of the message for the identity, made with the
    /// randomness `s`.
    pub fn encrypt_with(&self, s: FieldElement, msg: &GTElement, mpk: &MPK, identity: String) -> (ct:
        CT)
        ensures
            ct.identity@ == identity@,
            is_ciphertext(mpk, msg@, s@, &ct),
    {
        let g2 = G2::generator();
        let bid = hash_to_g1(identity.as_str());
        proof {
            lemma_value_bound(s);
        }
        let masked = mpk.a.pow(&s).times(msg);
        CT { identity, msg: masked, s: g2.times(&s), c: bid.times(&s) }
    }

    /// A ciphertext of the message for the identity, made with fresh
    /// randomness.
    pub fn encrypt(&self, msg: &GTElement, mpk: &MPK, identity: String) -> (ct: CT)
        ensures
            ct.identity@ == identity@,
            is_ciphertext(mpk, msg@, ct.s@, &ct),
    {
        let s = FieldElement::random();
        self.encrypt_with(s, msg, mpk, identity)
    }

    /// The message that the user key recovers from the ciphertext, or
    /// nothing where the two are for different identities.
    pub fn decrypt(&self, usk: &USK, ct: &CT) -> (r: Option<GTElement>)
        ensures
            exponent_of(r) == opened(usk, ct),
    {
        if usk.identity != ct.identity {
            return None;
        }
        let result = GTElement::pair(&usk.k, &ct.s).times(&GTElement::pair(&ct.c.negated(), &usk.r));
        match result.inverse() {
            Some(inverse) => Some(ct.msg.times(&inverse)),
            None => None,
        }
    }
}

/// Decryption recovers the message: a user key made from the master secret
/// for an identity opens a ciphertext made from the public key for the same
/// identity to the message of the ciphertext, whatever the randomness of
/// the two.
pub proof fn lemma_decrypt_recovers_message(
    msk: MSK,
    mpk: MPK,
    usk: USK,
    ct: CT,
    r: nat,
    s: nat,
    msg: GTElement,
)
    requires
        mpk.a@ == msk.alpha@,
        usk.identity@ == ct.identity@,
        is_user_key(&msk, r, &usk),
        is_ciphertext(&mpk, msg@, s, &ct),
    ensures
        opened(&usk, &ct) == Some(msg@),
{
    crate::math::lemma_modulus_large();
    let h = hash_to_g1_value(usk.identity@);
    let (al, hi, ri, si, mi) = (msk.alpha@ as int, h as int, r as int, s as int, msg@ as int);
    lemma_product_evaluates(h, r, hi, ri);
    lemma_sum_evaluates(msk.alpha@, fmul(h, r), al, hi * ri);
    let ki = al + hi * ri;
    lemma_product_evaluates(mpk.a@, s, al, si);
    lemma_sum_evaluates(fmul(mpk.a@, s), msg@, al * si, mi);
    lemma_product_evaluates(h, s, hi, si);
    let ci = hi * si;
    lemma_product_evaluates(usk.k@, ct.s@, ki, si);
    lemma_negation_evaluates(ct.c@, ci);
    lemma_product_evaluates(fneg(ct.c@), usk.r@, -ci, ri);
    lemma_sum_evaluates(fmul(usk.k@, ct.s@), fmul(fneg(ct.c@), usk.r@), ki * si, (-ci) * ri);
    let paired = fadd(fmul(usk.k@, ct.s@), fmul(fneg(ct.c@), usk.r@));
    lemma_negation_evaluates(paired, ki * si + (-ci) * ri);
    lemma_sum_evaluates(ct.msg@, fneg(paired), al * si + mi, -(ki * si + (-ci) * ri));
    assert(al * si + mi + -(ki * si + (-ci) * ri) == mi) by (nonlinear_arith)
        requires
            ki == al + hi * ri,
            ci == hi * si,
    ;
    vstd::arithmetic::div_mod::lemma_mod_bound(crate::types::gt_exponent(msg) as int, scalar_modulus() as int);
    lemma_congruent_small(opened_exponent(&usk, &ct), msg@);
}

} // verus!

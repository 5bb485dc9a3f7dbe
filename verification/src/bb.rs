//! The identity-based encryption of Boneh and Boyen, for messages of the
//! target group.

use vstd::prelude::*;
use crate::hashing::{hash_to_fr, hash_to_fr_value};
use crate::algebra::{
    congruent, lemma_congruent_small, lemma_negation_evaluates, lemma_product_evaluates,
    lemma_sum_evaluates,
};
use crate::ibkem::exponent_of;
use crate::math::{fadd, fmul, fneg, scalar_modulus};
use crate::types::{lemma_value_bound, FieldElement, GTElement, G1, G2};

verus! {

/// The master secret key.
pub struct MSK {
    pub alpha: FieldElement,
    pub b_0: FieldElement,
    pub b_1: FieldElement,
}

/// The master public key.
pub struct MPK {
    pub a: GTElement,
    pub b_0_g1: G1,
    pub b_0_g2: G2,
    pub b_1_g1: G1,
    pub b_1_g2: G2,
}

/// The secret key of one identity.
pub struct USK {
    pub identity: String,
    pub r: G2,
    pub k: G2,
}

/// A ciphertext for one identity.
pub struct CT {
    pub identity: String,
    pub msg: GTElement,
    pub s: G1,
    pub c: G1,
}

/// The scheme.
pub struct BB {}

/// The public key is the one of the secret key: each secret lifted into the
/// groups.
pub open spec fn is_key_pair(msk: &MSK, mpk: &MPK) -> bool {
    &&& mpk.a@ == msk.alpha@
    &&& mpk.b_0_g1@ == msk.b_0@
    &&& mpk.b_0_g2@ == msk.b_0@
    &&& mpk.b_1_g1@ == msk.b_1@
    &&& mpk.b_1_g2@ == msk.b_1@
}

/// The exponent of the key part `k` of a user key made with randomness `r`
/// for an identity hashed to `xid`.
pub open spec fn user_exponent(msk: &MSK, xid: nat, r: nat) -> nat {
    fadd(msk.alpha@, fmul(r, fadd(msk.b_0@, fmul(xid, msk.b_1@))))
}

/// The exponent of the message that a user key recovers from a ciphertext.
pub open spec fn opened_exponent(usk: &USK, ct: &CT) -> nat {
    fadd(ct.msg@, fneg(fadd(fmul(ct.s@, usk.k@), fmul(fneg(ct.c@), usk.r@))))
}

/// What a user key opens a ciphertext to: nothing where the two are for
/// different identities, the exponent of the recovered message otherwise.
pub open spec fn opened(usk: &USK, ct: &CT) -> Option<nat> {
    if usk.identity@ == ct.identity@ {
        Some(opened_exponent(usk, ct))
    } else {
        None
    }
}

/// The user key is the one that the master secret gives its identity with
/// the randomness `r`.
pub open spec fn is_user_key(msk: &MSK, r: nat, usk: &USK) -> bool {
    &&& usk.r@ == r
    &&& usk.k@ == user_exponent(msk, hash_to_fr_value(usk.identity@), r)
}

/// The ciphertext is the one that the public key gives the message and the
/// identity of the ciphertext with the randomness `s`.
pub open spec fn is_ciphertext(mpk: &MPK, msg: nat, s: nat, ct: &CT) -> bool {
    &&& ct.msg@ == fadd(fmul(mpk.a@, s), msg)
    &&& ct.s@ == s
    &&& ct.c@ == fadd(
        fmul(mpk.b_0_g1@, s),
        fmul(mpk.b_1_g1@, fmul(s, hash_to_fr_value(ct.identity@))),
    )
}

impl BB {
    /// The scheme.
    pub fn new() -> (r: BB) {
        BB {  }
    }

    /// The key pair for the given secrets.
    pub fn setup_with(&self, alpha: FieldElement, b_0: FieldElement, b_1: FieldElement) -> (r: (
        MSK,
        MPK,
    ))
        ensures
            r.0.alpha == alpha,
            r.0.b_0 == b_0,
            r.0.b_1 == b_1,
            is_key_pair(&r.0, &r.1),
    {
        let msk = MSK { alpha, b_0, b_1 };
        let g1 = G1::generator();
        let g2 = G2::generator();
        proof {
            lemma_value_bound(alpha);
            lemma_value_bound(b_0);
            lemma_value_bound(b_1);
        }
        let mpk = MPK {
            a: GTElement::pair(&g1.times(&alpha), &g2),
            b_0_g1: g1.times(&b_0),
            b_0_g2: g2.times(&b_0),
            b_1_g1: g1.times(&b_1),
            b_1_g2: g2.times(&b_1),
        };
        (msk, mpk)
    }

    /// A fresh key pair.
    pub fn setup(&self) -> (r: (MSK, MPK))
        ensures
            is_key_pair(&r.0, &r.1),
    {
        let alpha = FieldElement::random();
        let b_0 = FieldElement::random();
        let b_1 = FieldElement::random();
        self.setup_with(alpha, b_0, b_1)
    }

    /// The user key of the identity, made with the randomness `r`.
    pub fn keygen_with(&self, r: FieldElement, msk: &MSK, identity: String) -> (usk: USK)
        ensures
            usk.identity@ == identity@,
            is_user_key(msk, r@, &usk),
    {
        let g2 = G2::generator();
        let xid = hash_to_fr(identity.as_str());
        let exponent = msk.alpha.plus(&r.times(&msk.b_0.plus(&xid.times(&msk.b_1))));
        proof {
            lemma_value_bound(r);
            lemma_value_bound(exponent);
        }
        USK { identity, r: g2.times(&r), k: g2.times(&exponent) }
    }

    /// A user key of the identity, made with fresh randomness.
    pub fn keygen(&self, msk: &MSK, identity: String) -> (usk: USK)
        ensures
            usk.identity@ == identity@,
            is_user_key(msk, usk.r@, &usk),
    {
        let r = FieldElement::random();
        self.keygen_with(r, msk, identity)
    }

    /// The ciphertext of the message for the identity, made with the
    /// randomness `s`.
    pub fn encrypt_with(&self, s: FieldElement, msg: &GTElement, mpk: &MPK, identity: String) -> (ct:
        CT)
        ensures
            ct.identity@ == identity@,
            is_ciphertext(mpk, msg@, s@, &ct),
    {
        let g1 = G1::generator();
        let xid = hash_to_fr(identity.as_str());
        proof {
            lemma_value_bound(s);
        }
        let masked = mpk.a.pow(&s).times(msg);
        let c = mpk.b_0_g1.times(&s).plus(&mpk.b_1_g1.times(&s.times(&xid)));
        CT { identity, msg: masked, s: g1.times(&s), c }
    }

    /// A ciphertext of the message for the identity, made with fresh
    /// randomness.
    pub fn encrypt(&self, msg: &GTElement, mpk: &MPK, identity: String) -> (ct: CT)
        ensures
            ct.identity@ == identity@,
            is_ciphertext(mpk, msg@, ct.s@, &ct),
    {
        let s = FieldElement::random();
        self.encrypt_with(s, msg, mpk, identity)
    }

    /// The message that the user key recovers from the ciphertext, or
    /// nothing where the two are for different identities.
    pub fn decrypt(&self, usk: &USK, ct: &CT) -> (r: Option<GTElement>)
        ensures
            exponent_of(r) == opened(usk, ct),
    {
        if usk.identity != ct.identity {
            return None;
        }
        let result = GTElement::pair(&ct.s, &usk.k).times(&GTElement::pair(&ct.c.negated(), &usk.r));
        match result.inverse() {
            Some(inverse) => Some(ct.msg.times(&inverse)),
            None => None,
        }
    }
}

/// Decryption recovers the message: a user key made from the master secret
/// for an identity opens a ciphertext made from the public key for the same
/// identity to the message of the ciphertext, whatever the randomness of
/// the two.
pub proof fn lemma_decrypt_recovers_message(
    msk: MSK,
    mpk: MPK,
    usk: USK,
    ct: CT,
    r: nat,
    s: nat,
    msg: GTElement,
)
    requires
        is_key_pair(&msk, &mpk),
        usk.identity@ == ct.identity@,
        is_user_key(&msk, r, &usk),
        is_ciphertext(&mpk, msg@, s, &ct),
    ensures
        opened(&usk, &ct) == Some(msg@),
{
    crate::math::lemma_modulus_large();
    let x = hash_to_fr_value(usk.identity@);
    let (al, b0, b1) = (msk.alpha@ as int, msk.b_0@ as int, msk.b_1@ as int);
    let (xi, ri, si, mi) = (x as int, r as int, s as int, msg@ as int);
    // The key part of the user key.
    lemma_product_evaluates(x, msk.b_1@, xi, b1);
    lemma_sum_evaluates(msk.b_0@, fmul(x, msk.b_1@), b0, xi * b1);
    lemma_product_evaluates(r, fadd(msk.b_0@, fmul(x, msk.b_1@)), ri, b0 + xi * b1);
    lemma_sum_evaluates(
        msk.alpha@,
        fmul(r, fadd(msk.b_0@, fmul(x, msk.b_1@))),
        al,
        ri * (b0 + xi * b1),
    );
    let ki = al + ri * (b0 + xi * b1);
    // The ciphertext.
    lemma_product_evaluates(mpk.a@, s, al, si);
    lemma_sum_evaluates(fmul(mpk.a@, s), msg@, al * si, mi);
    lemma_product_evaluates(mpk.b_0_g1@, s, b0, si);
    lemma_product_evaluates(s, x, si, xi);
    lemma_product_evaluates(mpk.b_1_g1@, fmul(s, x), b1, si * xi);
    lemma_sum_evaluates(
        fmul(mpk.b_0_g1@, s),
        fmul(mpk.b_1_g1@, fmul(s, x)),
        b0 * si,
        b1 * (si * xi),
    );
    let ci = b0 * si + b1 * (si * xi);
    // The pairings.
    lemma_product_evaluates(ct.s@, usk.k@, si, ki);
    lemma_negation_evaluates(ct.c@, ci);
    lemma_product_evaluates(fneg(ct.c@), usk.r@, -ci, ri);
    lemma_sum_evaluates(fmul(ct.s@, usk.k@), fmul(fneg(ct.c@), usk.r@), si * ki, (-ci) * ri);
    let paired = fadd(fmul(ct.s@, usk.k@), fmul(fneg(ct.c@), usk.r@));
    lemma_negation_evaluates(paired, si * ki + (-ci) * ri);
    lemma_sum_evaluates(ct.msg@, fneg(paired), al * si + mi, -(si * ki + (-ci) * ri));
    assert(al * si + mi + -(si * ki + (-ci) * ri) == mi) by (nonlinear_arith)
        requires
            ki == al + ri * (b0 + xi * b1),
            ci == b0 * si + b1 * (si * xi),
    ;
    vstd::arithmetic::div_mod::lemma_mod_bound(crate::types::gt_exponent(msg) as int, scalar_modulus() as int);
    lemma_congruent_small(opened_exponent(&usk, &ct), msg@);
}

} // verus!

//! The fixed generators that every scheme shares.

use vstd::prelude::*;
use crate::math::{fmul, lemma_modulus_large, scalar_modulus};
use crate::types::{pairing_sum, FieldElement, GTElement, G1, G2};

verus! {

/// The generators of G1 and G2 and their pairing, the generator of GT.
pub struct GroupCtx {
    pub g1: G1,
    pub g2: G2,
    pub gt: GTElement,
}

impl GroupCtx {
    /// The three elements are the standard generators: each has exponent one.
    pub open spec fn is_standard(&self) -> bool {
        &&& self.g1@ == 1
        &&& self.g2@ == 1
        &&& self.gt@ == 1
    }

    /// The context of BLS12-381.
    pub fn bls12_381() -> (r: Self)
        ensures
            r.is_standard(),
    {
        let g1 = G1::generator();
        let g2 = G2::generator();
        let gt = GTElement::pair(&g1, &g2);
        proof {
            lemma_modulus_large();
            assert(fmul(1, 1) == 1) by {
                vstd::arithmetic::div_mod::lemma_small_mod(1, scalar_modulus());
            }
        }
        GroupCtx { g1, g2, gt }
    }

    /// The multiple `s` of the G1 generator.
    pub fn scalar_mul_p1(&self, s: FieldElement) -> (r: G1)
        ensures
            r@ == fmul(self.g1@, s@),
    {
        self.g1.times(&s)
    }

    /// The multiple `s` of the G2 generator.
    pub fn scalar_mul_p2(&self, s: FieldElement) -> (r: G2)
        ensures
            r@ == fmul(self.g2@, s@),
    {
        self.g2.times(&s)
    }

    /// The power `s` of the GT generator.
    pub fn scalar_expo_gt(&self, s: FieldElement) -> (r: GTElement)
        ensures
            r@ == fmul(self.gt@, s@),
    {
        self.gt.pow(&s)
    }

    /// The pairing of two points.
    pub fn pairing(&self, g1: &G1, g2: &G2) -> (r: GTElement)
        ensures
            r@ == fmul(g1@, g2@),
    {
        GTElement::pair(g1, g2)
    }

    /// The product of the pairings of all pairs.
    pub fn multi_pairing(&self, pairs: &[(G1, G2)]) -> (r: GTElement)
        ensures
            r@ == pairing_sum(pairs@, pairs@.len()),
    {
        GTElement::pair_all(pairs)
    }
}

} // verus!

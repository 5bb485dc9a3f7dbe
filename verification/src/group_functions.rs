//! The operations of the group context, on the fixed generators.

use vstd::prelude::*;
use crate::math::fmul;
use crate::types::{lemma_value_bound, pairing_sum, FieldElement, GTElement, G1, G2};

verus! {

/// The multiple `s` of the G1 generator.
pub fn scalar_mul_g1(s: FieldElement) -> (r: G1)
    ensures
        r@ == s@,
{
    proof {
        lemma_value_bound(s);
    }
    G1::generator().times(&s)
}

/// The multiple `s` of the G2 generator.
pub fn scalar_mul_g2(s: FieldElement) -> (r: G2)
    ensures
        r@ == s@,
{
    proof {
        lemma_value_bound(s);
    }
    G2::generator().times(&s)
}

/// The pairing of two points.
pub fn pairing(g1: &G1, g2: &G2) -> (r: GTElement)
    ensures
        r@ == fmul(g1@, g2@),
{
    GTElement::pair(g1, g2)
}

/// The product of the pairings of all pairs.
pub fn multi_pairing(pairs: &[(G1, G2)]) -> (r: GTElement)
    ensures
        r@ == pairing_sum(pairs@, pairs@.len()),
{
    GTElement::pair_all(pairs)
}

} // verus!

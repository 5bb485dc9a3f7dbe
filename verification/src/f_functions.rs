//! The family of functions that encodes an identity, bit by bit, as the
//! coefficients of a linear combination.

use vstd::prelude::*;
use crate::math::{canonical, lemma_vec_add_canonical, mat_vec, vec_add, vec_scale};
use crate::types::FieldElement;

verus! {

/// Bit `bit_index` of the message, counted from the least significant bit of
/// its first byte.
pub open spec fn message_bit(message: Seq<u8>, bit_index: nat) -> nat {
    ((message[(bit_index / 8) as int] >> ((bit_index % 8) as u8)) & 1u8) as nat
}

/// The coefficient of index `i` for a message of `l` bits at most: indices
/// `2 + 2b` and `3 + 2b` stand for the values 0 and 1 of bit `b`, and the one
/// that the message's bit equals has coefficient one. Every other index,
/// and every index whose bit lies outside the message, has coefficient zero.
pub open spec fn f_i_spec(i: nat, l: nat, message: Seq<u8>) -> nat {
    if i < 2 {
        0
    } else {
        let bit_index = ((i - 2) / 2) as nat;
        let bit_value = ((i - 2) % 2) as nat;
        if bit_index < l && bit_index / 8 < message.len() && message_bit(message, bit_index)
            == bit_value {
            1
        } else {
            0
        }
    }
}

/// The coefficient of the constant term of index `i`: one for the first,
/// zero for the others.
pub open spec fn f_prime_i_spec(i: nat) -> nat {
    if i == 0 {
        1
    } else {
        0
    }
}

/// The sum, over the indices below `n` whose coefficient is not zero, of the
/// coefficient times the product of the matrix of that index with `t`, added
/// to `start` from the left.
pub open spec fn affine_sum(
    matrices: Seq<Seq<Seq<nat>>>,
    l: nat,
    message: Seq<u8>,
    t: Seq<nat>,
    n: nat,
    start: Seq<nat>,
) -> Seq<nat>
    decreases n,
{
    if n == 0 {
        start
    } else {
        let before = affine_sum(matrices, l, message, t, (n - 1) as nat, start);
        let f = f_i_spec((n - 1) as nat, l, message);
        if f != 0 {
            vec_add(before, vec_scale(f, mat_vec(matrices[n - 1], t)))
        } else {
            before
        }
    }
}

/// The sum, over the constant-term indices below `n` whose coefficient is not
/// zero, of the coefficient times the vector of that index, added to `start`
/// from the left.
pub open spec fn constant_sum(vectors: Seq<Seq<nat>>, n: nat, start: Seq<nat>) -> Seq<nat>
    decreases n,
{
    if n == 0 {
        start
    } else {
        let before = constant_sum(vectors, (n - 1) as nat, start);
        let f = f_prime_i_spec((n - 1) as nat);
        if f != 0 {
            vec_add(before, vec_scale(f, vectors[n - 1]))
        } else {
            before
        }
    }
}

/// The coefficient of index `i` as a field element.
pub fn f_i(i: usize, l: usize, message: &[u8]) -> (r: FieldElement)
    ensures
        r@ == f_i_spec(i as nat, l as nat, message@),
{
    if i < 2 {
        return FieldElement::zero();
    }
    let bit_index: usize = (i - 2) / 2;
    let bit_value: usize = (i - 2) % 2;
    let byte_index: usize = bit_index / 8;
    if bit_index < l && byte_index < message.len() {
        let bit_position: u8 = (bit_index % 8) as u8;
        let byte: u8 = message[byte_index];
        let bit: u8 = (byte >> bit_position) & 1u8;
        assert(bit == 0 || bit == 1) by (bit_vector)
            requires
                bit == (byte >> bit_position) & 1u8,
        ;
        if (bit == 1) == (bit_value == 1) {
            FieldElement::one()
        } else {
            FieldElement::zero()
        }
    } else {
        FieldElement::zero()
    }
}

/// The coefficient of the constant term of index `i` as a field element.
pub fn f_prime_i(i: usize) -> (r: FieldElement)
    ensures
        r@ == f_prime_i_spec(i as nat),
{
    if i == 0 {
        FieldElement::one()
    } else {
        FieldElement::zero()
    }
}

/// For every bit inside the message and below `l`, exactly one of the two
/// indices that stand for it has coefficient one, and the other zero.
pub proof fn lemma_one_hot(bit_index: nat, l: nat, message: Seq<u8>)
    requires
        bit_index < l,
        bit_index / 8 < message.len(),
    ensures
        f_i_spec(2 + 2 * bit_index, l, message) + f_i_spec(3 + 2 * bit_index, l, message) == 1,
        f_i_spec(2 + 2 * bit_index + message_bit(message, bit_index), l, message) == 1,
{
    let byte = message[(bit_index / 8) as int];
    let shift = (bit_index % 8) as u8;
    let bit = (byte >> shift) & 1u8;
    assert(bit == 0 || bit == 1) by (bit_vector)
        requires
            bit == (byte >> shift) & 1u8,
    ;
    assert((2 + 2 * bit_index - 2) / 2 == bit_index);
    assert((2 + 2 * bit_index - 2) % 2 == 0);
    assert((3 + 2 * bit_index - 2) / 2 == bit_index);
    assert((3 + 2 * bit_index - 2) % 2 == 1);
}

/// A sum of message-dependent terms that starts from entries below the
/// modulus has entries below the modulus.
pub proof fn lemma_affine_sum_canonical(
    matrices: Seq<Seq<Seq<nat>>>,
    l: nat,
    message: Seq<u8>,
    t: Seq<nat>,
    n: nat,
    start: Seq<nat>,
)
    requires
        canonical(start),
    ensures
        canonical(affine_sum(matrices, l, message, t, n, start)),
    decreases n,
{
    if n > 0 {
        let before = affine_sum(matrices, l, message, t, (n - 1) as nat, start);
        lemma_affine_sum_canonical(matrices, l, message, t, (n - 1) as nat, start);
        let f = f_i_spec((n - 1) as nat, l, message);
        lemma_vec_add_canonical(before, vec_scale(f, mat_vec(matrices[n - 1], t)));
    }
}

/// A sum of constant terms that starts from entries below the modulus has
/// entries below the modulus.
pub proof fn lemma_constant_sum_canonical(vectors: Seq<Seq<nat>>, n: nat, start: Seq<nat>)
    requires
        canonical(start),
    ensures
        canonical(constant_sum(vectors, n, start)),
    decreases n,
{
    if n > 0 {
        let before = constant_sum(vectors, (n - 1) as nat, start);
        lemma_constant_sum_canonical(vectors, (n - 1) as nat, start);
        let f = f_prime_i_spec((n - 1) as nat);
        lemma_vec_add_canonical(before, vec_scale(f, vectors[n - 1]));
    }
}

/// The two sums, one after the other, keep entries below the modulus.
pub proof fn lemma_mac_canonical(
    matrices: Seq<Seq<Seq<nat>>>,
    constants: Seq<Seq<nat>>,
    l: nat,
    l_prime: nat,
    message: Seq<u8>,
    t: Seq<nat>,
    start: Seq<nat>,
)
    requires
        canonical(start),
    ensures
        canonical(
            constant_sum(
                constants,
                l_prime + 1,
                affine_sum(matrices, l, message, t, l + 1, start),
            ),
        ),
{
    lemma_affine_sum_canonical(matrices, l, message, t, l + 1, start);
    lemma_constant_sum_canonical(
        constants,
        l_prime + 1,
        affine_sum(matrices, l, message, t, l + 1, start),
    );
}

/// A sum of message-dependent terms has as many entries as what it starts
/// from, where each matrix has that many rows.
pub proof fn lemma_affine_sum_len(
    matrices: Seq<Seq<Seq<nat>>>,
    l: nat,
    message: Seq<u8>,
    t: Seq<nat>,
    n: nat,
    start: Seq<nat>,
)
    requires
        n <= matrices.len(),
        forall|i: int| 0 <= i < matrices.len() ==> (#[trigger] matrices[i]).len() == start.len(),
    ensures
        affine_sum(matrices, l, message, t, n, start).len() == start.len(),
    decreases n,
{
    if n > 0 {
        lemma_affine_sum_len(matrices, l, message, t, (n - 1) as nat, start);
        assert(matrices[n - 1].len() == start.len());
    }
}

/// A sum of constant terms has as many entries as what it starts from,
/// where each vector has that many entries.
pub proof fn lemma_constant_sum_len(vectors: Seq<Seq<nat>>, n: nat, start: Seq<nat>)
    requires
        n <= vectors.len(),
        forall|i: int| 0 <= i < vectors.len() ==> (#[trigger] vectors[i]).len() == start.len(),
    ensures
        constant_sum(vectors, n, start).len() == start.len(),
    decreases n,
{
    if n > 0 {
        lemma_constant_sum_len(vectors, (n - 1) as nat, start);
        assert(vectors[n - 1].len() == start.len());
    }
}

} // verus!

//! Hashing of byte strings to digests and to bit strings, and the random
//! messages and identities that the schemes are exercised with.

use rand::Rng;
use vstd::prelude::*;
use crate::blake3::{blake3_digest, Blake3};
use crate::types::{field_repr, g1_exponent, hashed_point, hashed_scalar, FieldElement, G1};

verus! {

/// Bit `i` of a byte string, counted from the most significant bit of its
/// first byte.
pub open spec fn bit_of(bytes: Seq<u8>, i: nat) -> bool {
    (bytes[(i / 8) as int] >> ((7 - i % 8) as u8)) & 1u8 == 1u8
}

/// The first `n` bits of a byte string.
pub open spec fn leading_bits(bytes: Seq<u8>, n: nat) -> Seq<bool> {
    Seq::new(n, |i: int| bit_of(bytes, i as nat))
}

/// The weight of bit `i` of a bit string in the byte that packs it, or zero
/// where the bit is clear or lies beyond the end.
pub open spec fn bit_weight(bits: Seq<bool>, i: nat) -> nat {
    if i < bits.len() && bits[i as int] {
        if i % 8 == 0 {
            128
        } else if i % 8 == 1 {
            64
        } else if i % 8 == 2 {
            32
        } else if i % 8 == 3 {
            16
        } else if i % 8 == 4 {
            8
        } else if i % 8 == 5 {
            4
        } else if i % 8 == 6 {
            2
        } else {
            1
        }
    } else {
        0
    }
}

/// Byte `j` of a packed bit string: its bits `8j` to `8j + 7`, the first
/// being the most significant.
pub open spec fn packed_byte(bits: Seq<bool>, j: nat) -> nat {
    bit_weight(bits, 8 * j) + bit_weight(bits, 8 * j + 1) + bit_weight(bits, 8 * j + 2)
        + bit_weight(bits, 8 * j + 3) + bit_weight(bits, 8 * j + 4) + bit_weight(bits, 8 * j + 5)
        + bit_weight(bits, 8 * j + 6) + bit_weight(bits, 8 * j + 7)
}

/// A bit string packed into bytes, the last one padded with clear bits.
pub open spec fn packed(bits: Seq<bool>) -> Seq<u8> {
    Seq::new((bits.len() + 7) / 8, |j: int| packed_byte(bits, j as nat) as u8)
}

/// The identity that an input is given: the first `bits` bits of its digest,
/// packed into bytes.
pub open spec fn identity_of(input: Seq<u8>, bits: nat) -> Seq<u8> {
    packed(leading_bits(blake3_digest(input), bits))
}

/// A byte is a lower-case letter or a digit.
pub open spec fn is_letter_or_digit(c: u8) -> bool {
    97 <= c <= 122 || 48 <= c <= 57
}

/// A byte is a lower-case letter.
pub open spec fn is_letter(c: u8) -> bool {
    97 <= c <= 122
}

/// The bytes spell `name@domain.tld`: a name of 6 to 11 and a domain of 5 to
/// 9 letters or digits, and a top-level domain of 2 or 3 letters.
pub open spec fn is_email(e: Seq<u8>, name: nat, domain: nat, tld: nat) -> bool {
    &&& 6 <= name < 12
    &&& 5 <= domain < 10
    &&& 2 <= tld < 4
    &&& e.len() == name + domain + tld + 2
    &&& e[name as int] == 64
    &&& e[(name + 1 + domain) as int] == 46
    &&& forall|i: int| 0 <= i < name ==> is_letter_or_digit(#[trigger] e[i])
    &&& forall|i: int| name < i < name + 1 + domain ==> is_letter_or_digit(#[trigger] e[i])
    &&& forall|i: int| name + 1 + domain < i < e.len() ==> is_letter(#[trigger] e[i])
}

/// The bytes spell an address of that form, for some lengths of its parts.
pub open spec fn is_some_email(e: Seq<u8>) -> bool {
    exists|name: nat, domain: nat, tld: nat| is_email(e, name, domain, tld)
}

/// `bit_vec::BitVec`, a vector of bits packed into blocks.
#[verifier::external_type_specification]
#[verifier::external_body]
#[verifier::reject_recursive_types(B)]
pub struct ExBitVec<B>(bit_vec::BitVec<B>);

/// The bits that a bit vector holds, in order.
pub uninterp spec fn bit_vec_bits(bits: bit_vec::BitVec) -> Seq<bool>;

/// `Rng::gen_range` on the thread's generator, from zero: some index below
/// the bound.
#[verifier::external_body]
fn random_below(bound: usize) -> (r: usize)
    requires
        bound > 0,
    ensures
        r < bound,
{
    rand::thread_rng().gen_range(0..bound)
}

/// `rand::random`: some byte.
#[verifier::external_body]
fn random_byte() -> (r: u8) {
    rand::random::<u8>()
}

/// `BitVec::from_bytes`: each byte becomes eight bits, the most
/// significant first.
#[verifier::external_body]
pub(crate) fn bits_of_bytes(bytes: &[u8]) -> (r: bit_vec::BitVec)
    requires
        8 * bytes@.len() <= usize::MAX,
    ensures
        bit_vec_bits(r) == leading_bits(bytes@, 8 * bytes@.len()),
{
    bit_vec::BitVec::from_bytes(bytes)
}

/// `BitVec::truncate`: the bits beyond `len` are dropped; a length that is
/// not below the current one changes nothing.
#[verifier::external_body]
fn truncate_bits(bits: &mut bit_vec::BitVec, len: usize)
    ensures
        bit_vec_bits(*final(bits)) == if len < bit_vec_bits(*old(bits)).len() {
            bit_vec_bits(*old(bits)).take(len as int)
        } else {
            bit_vec_bits(*old(bits))
        },
{
    bits.truncate(len);
}

/// `BitVec::to_bytes`: each group of eight bits becomes a byte, the first
/// bit the most significant, the last group padded with clear bits.
#[verifier::external_body]
fn bytes_of_bits(bits: &bit_vec::BitVec) -> (r: Vec<u8>)
    ensures
        r@ == packed(bit_vec_bits(*bits)),
{
    bits.to_bytes()
}

/// `Index` of `BitVec`: the bit at an index within the vector.
#[verifier::external_body]
pub(crate) fn bit_of_vector(bits: &bit_vec::BitVec, i: usize) -> (r: bool)
    requires
        i < bit_vec_bits(*bits).len(),
    ensures
        r == bit_vec_bits(*bits)[i as int],
{
    bits[i]
}

/// `BitVec::iter`: the bits, in order.
#[verifier::external_body]
pub(crate) fn bit_values(bits: &bit_vec::BitVec) -> (r: Vec<bool>)
    ensures
        r@ == bit_vec_bits(*bits),
{
    bits.iter().collect()
}

/// The first `num_bits` bits of the digest of `input`.
pub fn blake3_hash_to_bits(input: &[u8], num_bits: usize) -> (r: bit_vec::BitVec)
    requires
        num_bits <= 256,
    ensures
        bit_vec_bits(r) == leading_bits(blake3_digest(input@), num_bits as nat),
{
    let hash_bytes = Blake3::default().hash(input);
    let mut bits = bits_of_bytes(hash_bytes.as_slice());
    truncate_bits(&mut bits, num_bits);
    assert(leading_bits(hash_bytes@, 256).take(num_bits as int) =~= leading_bits(
        hash_bytes@,
        num_bits as nat,
    ));
    bits
}

/// The digest of `input`.
pub fn blake3_hash_bytes(input: &[u8]) -> (r: Vec<u8>)
    ensures
        r@ == blake3_digest(input@),
{
    let hash_bytes = Blake3::default().hash(input);
    let mut out: Vec<u8> = Vec::new();
    let mut i: usize = 0;
    while i < 32
        invariant
            i <= 32,
            out@ == hash_bytes@.subrange(0, i as int),
        decreases 32 - i,
    {
        out.push(hash_bytes[i]);
        assert(out@ =~= hash_bytes@.subrange(0, i + 1));
        i += 1;
    }
    assert(out@ =~= hash_bytes@);
    out
}

/// Sixteen random bytes.
pub fn generate_random_message_128() -> (r: Vec<u8>)
    ensures
        r@.len() == 16,
{
    let mut out: Vec<u8> = Vec::new();
    let mut i: usize = 0;
    while i < 16
        invariant
            i <= 16,
            out@.len() == i,
        decreases 16 - i,
    {
        out.push(random_byte());
        i += 1;
    }
    out
}

/// The character at an index of the alphabet `a` to `z`, then `0` to `9`.
pub fn alphabet_char(index: usize) -> (r: u8)
    requires
        index < 36,
    ensures
        is_letter_or_digit(r),
        index < 26 ==> r == 97 + index,
        index >= 26 ==> r == 48 + (index - 26),
{
    if index < 26 {
        97 + index as u8
    } else {
        48 + (index - 26) as u8
    }
}

/// Appends `count` random characters to `out`: letters, or letters and digits.
fn push_random_chars(out: &mut Vec<u8>, count: usize, letters_only: bool)
    ensures
        final(out)@.len() == old(out)@.len() + count,
        final(out)@.subrange(0, old(out)@.len() as int) == old(out)@,
        forall|i: int|
            old(out)@.len() <= i < final(out)@.len() ==> is_letter_or_digit(
                #[trigger] final(out)@[i],
            ),
        letters_only ==> forall|i: int|
            old(out)@.len() <= i < final(out)@.len() ==> is_letter(#[trigger] final(out)@[i]),
{
    let ghost before = out@;
    let mut i: usize = 0;
    while i < count
        invariant
            i <= count,
            out@.len() == before.len() + i,
            out@.subrange(0, before.len() as int) == before,
            forall|t: int| before.len() <= t < out@.len() ==> is_letter_or_digit(#[trigger] out@[t]),
            letters_only ==> forall|t: int|
                before.len() <= t < out@.len() ==> is_letter(#[trigger] out@[t]),
        decreases count - i,
    {
        let ghost earlier = out@;
        let index = random_below(if letters_only { 26 } else { 36 });
        out.push(alphabet_char(index));
        assert(out@.subrange(0, before.len() as int) =~= earlier.subrange(0, before.len() as int));
        i += 1;
    }
}

/// A random address of the form `name@domain.tld`.
pub fn generate_random_email() -> (r: Vec<u8>)
    ensures
        is_some_email(r@),
{
    let name_len: usize = 6 + random_below(6);
    let domain_len: usize = 5 + random_below(5);
    let tld_len: usize = 2 + random_below(2);
    let mut email: Vec<u8> = Vec::new();
    push_random_chars(&mut email, name_len, false);
    let ghost first = email@;
    email.push(64);
    let ghost second = email@;
    push_random_chars(&mut email, domain_len, false);
    let ghost third = email@;
    assert(third[name_len as int] == third.subrange(0, second.len() as int)[name_len as int]);
    assert forall|i: int| 0 <= i < name_len implies is_letter_or_digit(#[trigger] third[i]) by {
        assert(third[i] == third.subrange(0, second.len() as int)[i]);
        assert(second[i] == first[i]);
    }
    email.push(46);
    let ghost fourth = email@;
    push_random_chars(&mut email, tld_len, true);
    assert forall|i: int| 0 <= i < fourth.len() implies email@[i] == #[trigger] fourth[i] by {
        assert(email@[i] == email@.subrange(0, fourth.len() as int)[i]);
    }
    assert forall|i: int| 0 <= i < name_len implies is_letter_or_digit(#[trigger] email@[i]) by {
        assert(email@[i] == fourth[i]);
        assert(fourth[i] == third[i]);
    }
    assert forall|i: int| name_len < i < name_len + 1 + domain_len implies is_letter_or_digit(
        #[trigger] email@[i],
    ) by {
        assert(email@[i] == fourth[i]);
        assert(fourth[i] == third[i]);
    }
    assert(email@[name_len as int] == fourth[name_len as int]);
    assert(email@[name_len + 1 + domain_len] == fourth[name_len + 1 + domain_len]);
    assert(is_email(email@, name_len as nat, domain_len as nat, tld_len as nat));
    email
}

/// A random address and the identity that it is given: the first `bits` bits
/// of its digest, packed into bytes.
pub fn generate_email_and_hash_identity(bits: usize) -> (r: (Vec<u8>, Vec<u8>))
    requires
        bits <= 256,
    ensures
        is_some_email(r.0@),
        r.1@ == identity_of(r.0@, bits as nat),
{
    let email = generate_random_email();
    let hash_bits = blake3_hash_to_bits(email.as_slice(), bits);
    let identity = bytes_of_bits(&hash_bits);
    (email, identity)
}

/// The domain separation tag under which identities are hashed.
pub open spec fn identity_domain() -> Seq<u8> {
    seq![73u8, 68u8, 69u8, 78u8, 84u8, 73u8, 84u8, 89u8]
}

/// The bytes of the domain separation tag: `IDENTITY`.
fn identity_domain_bytes() -> (r: Vec<u8>)
    ensures
        r@ == identity_domain(),
{
    let mut out: Vec<u8> = Vec::new();
    out.push(73);
    out.push(68);
    out.push(69);
    out.push(78);
    out.push(84);
    out.push(73);
    out.push(84);
    out.push(89);
    assert(out@ =~= identity_domain());
    out
}

/// The value of the field element that an identity is hashed to.
pub open spec fn hash_to_fr_value(identity: Seq<char>) -> nat {
    hashed_scalar(identity_domain(), vstd::utf8::encode_utf8(identity))
        % crate::math::scalar_modulus()
}

/// The field element that an identity is hashed to.
pub fn hash_to_fr(id: &str) -> (r: FieldElement)
    ensures
        field_repr(r) == hashed_scalar(identity_domain(), vstd::utf8::encode_utf8(id@)),
{
    let domain = identity_domain_bytes();
    FieldElement::from_hash(domain.as_slice(), id.as_bytes())
}

/// The point of G1 that an identity is hashed to: the point for the digest
/// of the identity.
pub fn hash_to_g1(id: &str) -> (r: G1)
    ensures
        g1_exponent(r) == hashed_point(identity_domain(), blake3_digest(vstd::utf8::encode_utf8(id@))),
{
    let domain = identity_domain_bytes();
    let input = blake3_hash_bytes(id.as_bytes());
    G1::from_hash(domain.as_slice(), input.as_slice())
}

} // verus!

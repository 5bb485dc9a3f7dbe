//! The BLAKE3 hash function, one-shot and incremental.

use vstd::prelude::*;

verus! {

/// `blake3::Hasher`, an incremental hasher, of which nothing is known but
/// what it has taken in and whether it was made for the plain hash function.
#[verifier::external_type_specification]
#[verifier::external_body]
pub struct ExHasher(blake3::Hasher);

/// The 32 bytes that BLAKE3 gives for an input.
pub uninterp spec fn blake3_digest(input: Seq<u8>) -> Seq<u8>;

/// The bytes that a hasher has taken in since it was made or last reset.
pub uninterp spec fn hasher_input(hasher: blake3::Hasher) -> Seq<u8>;

/// Whether a hasher was made for the plain hash function: without a key and
/// without a context to derive a key from.
pub uninterp spec fn hasher_is_plain(hasher: blake3::Hasher) -> bool;

/// `blake3::hash`: the digest of the input, which has 32 bytes.
#[verifier::external_body]
fn digest_of(input: &[u8]) -> (r: [u8; 32])
    ensures
        r@ == blake3_digest(input@),
{
    *blake3::hash(input).as_bytes()
}

/// `blake3::Hasher::default`: a hasher for the plain hash function that has
/// taken in nothing.
#[verifier::external_body]
fn hasher_new() -> (r: blake3::Hasher)
    ensures
        hasher_is_plain(r),
        hasher_input(r) == Seq::<u8>::empty(),
{
    blake3::Hasher::default()
}

/// `Clone` of `blake3::Hasher`: a hasher of the same kind that has taken in
/// the same bytes.
#[verifier::external_body]
fn hasher_clone(hasher: &blake3::Hasher) -> (r: blake3::Hasher)
    ensures
        hasher_is_plain(r) == hasher_is_plain(*hasher),
        hasher_input(r) == hasher_input(*hasher),
{
    hasher.clone()
}

/// `blake3::Hasher::update`: the data is appended to what was taken in, and
/// the hasher stays of its kind.
#[verifier::external_body]
fn hasher_update(hasher: &mut blake3::Hasher, data: &[u8])
    ensures
        hasher_is_plain(*final(hasher)) == hasher_is_plain(*old(hasher)),
        hasher_input(*final(hasher)) == hasher_input(*old(hasher)) + data@,
{
    hasher.update(data);
}

/// `blake3::Hasher::finalize` on a hasher for the plain hash function: the
/// digest of all that was taken in. A hasher made with a key gives the
/// keyed hash instead, of which nothing is said here.
#[verifier::external_body]
fn hasher_finalize(hasher: &blake3::Hasher) -> (r: [u8; 32])
    requires
        hasher_is_plain(*hasher),
    ensures
        r@ == blake3_digest(hasher_input(*hasher)),
{
    *hasher.finalize().as_bytes()
}

/// `blake3::Hasher::reset`: the hasher has taken in nothing, and stays of
/// its kind.
#[verifier::external_body]
fn hasher_reset(hasher: &mut blake3::Hasher)
    ensures
        hasher_is_plain(*final(hasher)) == hasher_is_plain(*old(hasher)),
        hasher_input(*final(hasher)) == Seq::<u8>::empty(),
{
    hasher.reset();
}

/// A hasher for the plain BLAKE3 hash function. The hasher it holds is
/// only ever made without a key.
pub struct Blake3 {
    hasher: blake3::Hasher,
}

impl View for Blake3 {
    type V = Seq<u8>;

    /// The bytes taken in so far.
    closed spec fn view(&self) -> Seq<u8> {
        hasher_input(self.hasher)
    }
}

impl Blake3 {
    /// The hasher that is held was made without a key.
    #[verifier::type_invariant]
    spec fn keyless(self) -> bool {
        hasher_is_plain(self.hasher)
    }

    /// The digest of `input` alone, whatever the hasher has taken in.
    pub fn hash(&self, input: &[u8]) -> (r: [u8; 32])
        ensures
            r@ == blake3_digest(input@),
    {
        digest_of(input)
    }

    /// Appends `data` to what the hasher has taken in.
    pub fn update(&mut self, data: &[u8])
        ensures
            final(self)@ == old(self)@ + data@,
    {
        proof {
            use_type_invariant(&*self);
        }
        let mut next = hasher_clone(&self.hasher);
        hasher_update(&mut next, data);
        self.hasher = next;
    }

    /// The digest of all that the hasher has taken in.
    pub fn finalize(&self) -> (r: [u8; 32])
        ensures
            r@ == blake3_digest(self@),
    {
        proof {
            use_type_invariant(self);
        }
        hasher_finalize(&self.hasher)
    }

    /// Forgets what the hasher has taken in.
    pub fn reset(&mut self)
        ensures
            final(self)@ == Seq::<u8>::empty(),
    {
        proof {
            use_type_invariant(&*self);
        }
        let mut next = hasher_clone(&self.hasher);
        hasher_reset(&mut next);
        self.hasher = next;
    }

    /// The digest of all that the hasher has taken in; the hasher is then reset.
    pub fn finalize_reset(&mut self) -> (r: [u8; 32])
        ensures
            r@ == blake3_digest(old(self)@),
            final(self)@ == Seq::<u8>::empty(),
    {
        let out = self.finalize();
        self.reset();
        out
    }
}

impl Default for Blake3 {
    fn default() -> (r: Self)
        ensures
            r@ == Seq::<u8>::empty(),
    {
        Blake3 { hasher: hasher_new() }
    }
}

impl Clone for Blake3 {
    fn clone(&self) -> (r: Self)
        ensures
            r@ == self@,
    {
        proof {
            use_type_invariant(self);
        }
        Blake3 { hasher: hasher_clone(&self.hasher) }
    }
}

} // verus!

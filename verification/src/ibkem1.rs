//! The key-encapsulation construction without a proof: a ciphertext can be
//! opened with the key of any identity, and only the key of the identity it
//! was made for recovers the encapsulated key.

use vstd::prelude::*;
use crate::affine_mac::{all_shaped, mac_value, AffineMAC, SecretKey};
use crate::field_utils::{random_matrix, random_vector, rows_have};
use crate::group_ctx::GroupCtx;
use crate::correctness::lemma_key_recovered;
use crate::ibkem::{
    decapsulate, decapsulation, encapsulate, exponent_of, is_encapsulation, lifted_z_matrices,
    public_part, secrets_fit, user_value, user_vector, z_primes,
};
use crate::math::{mat_scale, mat_vec, vec_scale};
use crate::types::{
    g1_cube, g1_rows, g1s, g2s, scalar_cube, scalar_rows, scalars, FieldElement, GTElement,
    Matrix, Vector, G1, G2,
};

verus! {

/// The public key: the matrix `M` and the matrices `Z` and vectors `Z'`, in G1.
pub struct IBKEM1PublicKey {
    pub m_matrix: Matrix<G1>,
    pub z_matrices: Vec<Matrix<G1>>,
    pub z_prime_vectors: Matrix<G1>,
}

/// The secret key of the key authority.
pub struct IBKEM1SecretKey {
    pub mac_sk: SecretKey,
    pub y_matrices: Vec<Matrix<FieldElement>>,
    pub y_prime_vectors: Vec<Vector>,
}

/// The secret key of one identity.
pub struct IBKEM1UserSecretKey {
    pub t_g2: Vec<G2>,
    pub u_g2: Vec<G2>,
    pub v_g2: Vec<G2>,
}

/// A ciphertext.
pub struct IBKEM1Ciphertext {
    pub c0_g1: Vec<G1>,
    pub c1_g1: Vec<G1>,
}

/// The construction for keys of dimension `k` and identities encoded over
/// `l + 1` indices, with `l_prime + 1` constant terms.
pub struct IBKEM1 {
    pub k: usize,
    pub l: usize,
    pub l_prime: usize,
    pub mac: AffineMAC,
    pub group: GroupCtx,
}

impl IBKEM1PublicKey {
    /// The key has the dimensions that `(k, l, l_prime)` ask for.
    pub open spec fn fits(&self, k: nat, l: nat, l_prime: nat) -> bool {
        &&& self.m_matrix@.len() == 3 * k
        &&& rows_have(self.m_matrix@, k)
        &&& self.z_matrices@.len() == l + 1
        &&& all_shaped(self.z_matrices@, k, k)
        &&& self.z_prime_vectors@.len() == l_prime + 1
        &&& rows_have(self.z_prime_vectors@, k)
    }
}

impl IBKEM1SecretKey {
    /// The key has the dimensions that `(k, l, l_prime)` ask for.
    pub open spec fn fits(&self, k: nat, l: nat, l_prime: nat) -> bool {
        &&& self.mac_sk.fits(k, l, l_prime)
        &&& self.y_matrices@.len() == l + 1
        &&& all_shaped(self.y_matrices@, k, k)
        &&& self.y_prime_vectors@.len() == l_prime + 1
        &&& rows_have(self.y_prime_vectors@, k)
    }
}

impl IBKEM1 {
    /// The dimensions fit the machine, the MAC has the same dimensions and
    /// the group context is the standard one.
    pub open spec fn valid(&self) -> bool {
        &&& 1 <= self.k
        &&& 3 * self.k <= usize::MAX
        &&& self.l < usize::MAX
        &&& self.l_prime < usize::MAX
        &&& self.mac.valid()
        &&& self.mac.k == self.k
        &&& self.mac.l == self.l
        &&& self.mac.l_prime == self.l_prime
        &&& self.mac.group == self.group
        &&& self.group.is_standard()
    }

    /// The public key is the one that the secret key and the matrix `m` give.
    pub open spec fn is_key_pair(
        &self,
        pk: &IBKEM1PublicKey,
        sk: &IBKEM1SecretKey,
        m: Seq<Vec<FieldElement>>,
    ) -> bool {
        let g1 = self.group.g1@;
        let k = self.k as nat;
        &&& g1_rows(pk.m_matrix@) == mat_scale(g1, scalar_rows(m))
        &&& g1_cube(pk.z_matrices@) == lifted_z_matrices(
            g1,
            scalar_cube(sk.y_matrices@),
            scalar_cube(sk.mac_sk.x_matrices@),
            scalar_rows(m),
            k,
        )
        &&& g1_rows(pk.z_prime_vectors@) == mat_scale(
            g1,
            z_primes(
                scalar_rows(sk.y_prime_vectors@),
                scalar_rows(sk.mac_sk.x_prime@),
                scalar_rows(m),
                k,
            ),
        )
    }

    /// The public key is the one that the secret key and some matrix of
    /// `3k` rows and `k` columns give.
    pub open spec fn is_some_key_pair(&self, pk: &IBKEM1PublicKey, sk: &IBKEM1SecretKey) -> bool {
        exists|m: Seq<Vec<FieldElement>>|
            m.len() == 3 * self.k && rows_have(m, self.k as nat) && self.is_key_pair(pk, sk, m)
    }

    /// The user key is the one that the secret key gives the identity with
    /// the randomness `s`.
    pub open spec fn is_user_key(
        &self,
        sk: &IBKEM1SecretKey,
        identity: Seq<u8>,
        s: Seq<FieldElement>,
        usk: &IBKEM1UserSecretKey,
    ) -> bool {
        let g2 = self.group.g2@;
        let k = self.k as nat;
        let l = self.l as nat;
        let l_prime = self.l_prime as nat;
        let t = mat_vec(scalar_rows(sk.mac_sk.b@), scalars(s));
        &&& g2s(usk.t_g2@) == vec_scale(g2, t)
        &&& g2s(usk.u_g2@) == vec_scale(
            g2,
            mac_value(
                scalar_cube(sk.mac_sk.x_matrices@),
                scalar_rows(sk.mac_sk.x_prime@),
                k,
                l,
                l_prime,
                identity,
                t,
            ),
        )
        &&& g2s(usk.v_g2@) == vec_scale(
            g2,
            user_value(
                scalar_cube(sk.y_matrices@),
                scalar_rows(sk.y_prime_vectors@),
                k,
                l,
                l_prime,
                identity,
                t,
            ),
        )
    }

    /// The ciphertext and the key are the ones that the randomness `r` gives
    /// for the identity under the public key.
    pub open spec fn is_ciphertext(
        &self,
        pk: &IBKEM1PublicKey,
        identity: Seq<u8>,
        r: Seq<FieldElement>,
        ct: &IBKEM1Ciphertext,
        key: GTElement,
    ) -> bool {
        is_encapsulation(
            self.group.g2@,
            self.k as nat,
            self.l as nat,
            self.l_prime as nat,
            g1_rows(pk.m_matrix@),
            g1_cube(pk.z_matrices@),
            g1_rows(pk.z_prime_vectors@),
            identity,
            scalars(r),
            g1s(ct.c0_g1@),
            g1s(ct.c1_g1@),
            key@,
        )
    }

    /// What the user key opens the ciphertext to: nothing where the
    /// ciphertext is empty, the exponent of the recovered key otherwise.
    pub open spec fn opened(usk: &IBKEM1UserSecretKey, ct: &IBKEM1Ciphertext) -> Option<nat> {
        decapsulation(
            g1s(ct.c0_g1@),
            g1s(ct.c1_g1@),
            g2s(usk.t_g2@),
            g2s(usk.u_g2@),
            g2s(usk.v_g2@),
        )
    }

    /// The user key and the ciphertext have the lengths that `decrypt` asks
    /// for.
    pub open spec fn can_open(usk: &IBKEM1UserSecretKey, ct: &IBKEM1Ciphertext) -> bool {
        &&& usk.v_g2@.len() + usk.u_g2@.len() <= usize::MAX
        &&& (ct.c0_g1@.len() == 0 || ct.c1_g1@.len() == 0 || (ct.c0_g1@.len() <= usk.v_g2@.len()
            + usk.u_g2@.len() && ct.c1_g1@.len() <= usk.t_g2@.len()))
    }

    /// The construction of the given dimensions over the groups of BLS12-381.
    pub fn new(k: usize, l: usize, l_prime: usize) -> (r: Self)
        requires
            1 <= k,
            3 * k <= usize::MAX,
            l < usize::MAX,
            l_prime < usize::MAX,
        ensures
            r.k == k,
            r.l == l,
            r.l_prime == l_prime,
            r.valid(),
    {
        let mac = AffineMAC::new(k, l, l_prime);
        let group = GroupCtx { g1: mac.group.g1, g2: mac.group.g2, gt: mac.group.gt };
        IBKEM1 { k, l, l_prime, mac, group }
    }

    /// The key pair that the given secret matrices give.
    pub fn setup_from(
        &self,
        m_matrix: &Matrix<FieldElement>,
        mac_sk: SecretKey,
        y_matrices: Vec<Matrix<FieldElement>>,
        y_prime_vectors: Vec<Vector>,
    ) -> (r: (IBKEM1PublicKey, IBKEM1SecretKey))
        requires
            self.valid(),
            secrets_fit(
                m_matrix@,
                &mac_sk,
                y_matrices@,
                y_prime_vectors@,
                self.k as nat,
                self.l as nat,
                self.l_prime as nat,
            ),
        ensures
            self.is_key_pair(&r.0, &r.1, m_matrix@),
            r.1.mac_sk == mac_sk,
            r.1.y_matrices == y_matrices,
            r.1.y_prime_vectors == y_prime_vectors,
            r.0.fits(self.k as nat, self.l as nat, self.l_prime as nat),
            r.1.fits(self.k as nat, self.l as nat, self.l_prime as nat),
    {
        let public = public_part(
            &self.group,
            self.k,
            self.l,
            self.l_prime,
            m_matrix,
            &mac_sk,
            &y_matrices,
            &y_prime_vectors,
        );
        let pk = IBKEM1PublicKey {
            m_matrix: public.0,
            z_matrices: public.1,
            z_prime_vectors: public.2,
        };
        let sk = IBKEM1SecretKey { mac_sk, y_matrices, y_prime_vectors };
        (pk, sk)
    }

    /// A fresh key pair.
    pub fn setup(&self) -> (r: (IBKEM1PublicKey, IBKEM1SecretKey))
        requires
            self.valid(),
        ensures
            self.is_some_key_pair(&r.0, &r.1),
            r.0.fits(self.k as nat, self.l as nat, self.l_prime as nat),
            r.1.fits(self.k as nat, self.l as nat, self.l_prime as nat),
    {
        let eta: usize = 2 * self.k;
        let m_matrix = random_matrix(self.k + eta, self.k);
        let mac_sk = self.mac.gen_mac();
        let mut y_matrices: Vec<Matrix<FieldElement>> = Vec::new();
        let mut i: usize = 0;
        while i <= self.l
            invariant
                self.valid(),
                i <= self.l + 1,
                y_matrices@.len() == i,
                all_shaped(y_matrices@, self.k as nat, self.k as nat),
            decreases self.l + 1 - i,
        {
            y_matrices.push(random_matrix(self.k, self.k));
            i += 1;
        }
        let mut y_prime_vectors: Vec<Vector> = Vec::new();
        let mut i: usize = 0;
        while i <= self.l_prime
            invariant
                self.valid(),
                i <= self.l_prime + 1,
                y_prime_vectors@.len() == i,
                rows_have(y_prime_vectors@, self.k as nat),
            decreases self.l_prime + 1 - i,
        {
            y_prime_vectors.push(random_vector(self.k));
            i += 1;
        }
        let r = self.setup_from(&m_matrix, mac_sk, y_matrices, y_prime_vectors);
        assert(m_matrix@.len() == 3 * self.k && rows_have(m_matrix@, self.k as nat)
            && self.is_key_pair(&r.0, &r.1, m_matrix@));
        r
    }

    /// The user key of the identity, made with the randomness `s`.
    pub fn extract_with(&self, sk: &IBKEM1SecretKey, identity: &[u8], s: &Vector) -> (usk:
        IBKEM1UserSecretKey)
        requires
            self.valid(),
            sk.fits(self.k as nat, self.l as nat, self.l_prime as nat),
        ensures
            self.is_user_key(sk, identity@, s@, &usk),
    {
        let tag = self.mac.tag_with(&sk.mac_sk, identity, s);
        let v_g2 = user_vector(
            &self.group,
            self.k,
            self.l,
            self.l_prime,
            &sk.y_matrices,
            &sk.y_prime_vectors,
            identity,
            &tag.t_field,
        );
        IBKEM1UserSecretKey { t_g2: tag.t_g2, u_g2: tag.u_g2, v_g2 }
    }

    /// A user key of the identity, made with fresh randomness.
    pub fn extract(&self, sk: &IBKEM1SecretKey, identity: &[u8]) -> (usk: IBKEM1UserSecretKey)
        requires
            self.valid(),
            sk.fits(self.k as nat, self.l as nat, self.l_prime as nat),
        ensures
            exists|s: Seq<FieldElement>|
                s.len() == self.k && self.is_user_key(sk, identity@, s, &usk),
    {
        let s = random_vector(self.k);
        let usk = self.extract_with(sk, identity, &s);
        assert(s@.len() == self.k && self.is_user_key(sk, identity@, s@, &usk));
        usk
    }

    /// The ciphertext and the encapsulated key for the identity, made with
    /// the randomness `r`.
    pub fn encrypt_with(&self, pk: &IBKEM1PublicKey, identity: &[u8], r: &Vector) -> (out: (
        IBKEM1Ciphertext,
        GTElement,
    ))
        requires
            self.valid(),
            pk.fits(self.k as nat, self.l as nat, self.l_prime as nat),
        ensures
            self.is_ciphertext(pk, identity@, r@, &out.0, out.1),
    {
        let parts = encapsulate(
            &self.group,
            self.k,
            self.l,
            self.l_prime,
            &pk.m_matrix,
            &pk.z_matrices,
            &pk.z_prime_vectors,
            identity,
            r,
        );
        (IBKEM1Ciphertext { c0_g1: parts.0, c1_g1: parts.1 }, parts.2)
    }

    /// A ciphertext and the key that it encapsulates for the identity, made
    /// with fresh randomness.
    pub fn encrypt(&self, pk: &IBKEM1PublicKey, identity: &[u8]) -> (out: (
        IBKEM1Ciphertext,
        GTElement,
    ))
        requires
            self.valid(),
            pk.fits(self.k as nat, self.l as nat, self.l_prime as nat),
        ensures
            exists|r: Seq<FieldElement>|
                r.len() == self.k && self.is_ciphertext(pk, identity@, r, &out.0, out.1),
    {
        let r = random_vector(self.k);
        let out = self.encrypt_with(pk, identity, &r);
        assert(r@.len() == self.k && self.is_ciphertext(pk, identity@, r@, &out.0, out.1));
        out
    }

    /// The key that the user key recovers from the ciphertext, or nothing
    /// where the ciphertext is empty.
    pub fn decrypt(&self, usk: &IBKEM1UserSecretKey, ciphertext: &IBKEM1Ciphertext) -> (r: Option<
        GTElement,
    >)
        requires
            Self::can_open(usk, ciphertext),
        ensures
            exponent_of(r) == Self::opened(usk, ciphertext),
    {
        decapsulate(
            &self.group,
            &usk.t_g2,
            &usk.u_g2,
            &usk.v_g2,
            &ciphertext.c0_g1,
            &ciphertext.c1_g1,
        )
    }
}

/// Decryption recovers the encapsulated key: for a key pair, a user key
/// extracted from the secret key for an identity and a ciphertext made from
/// the public key for the same identity, whatever the randomness of the
/// three, `decrypt` may be called on the user key and the ciphertext, and
/// gives the key that the ciphertext encapsulates.
pub proof fn lemma_decrypt_recovers_key(
    kem: IBKEM1,
    pk: IBKEM1PublicKey,
    sk: IBKEM1SecretKey,
    m: Seq<Vec<FieldElement>>,
    identity: Seq<u8>,
    s: Seq<FieldElement>,
    usk: IBKEM1UserSecretKey,
    r: Seq<FieldElement>,
    ct: IBKEM1Ciphertext,
    key: GTElement,
)
    requires
        kem.valid(),
        m.len() == 3 * kem.k,
        rows_have(m, kem.k as nat),
        sk.fits(kem.k as nat, kem.l as nat, kem.l_prime as nat),
        kem.is_key_pair(&pk, &sk, m),
        kem.is_user_key(&sk, identity, s, &usk),
        r.len() == kem.k,
        kem.is_ciphertext(&pk, identity, r, &ct, key),
    ensures
        IBKEM1::can_open(&usk, &ct),
        IBKEM1::opened(&usk, &ct) == Some(key@),
{
    lemma_key_recovered(
        kem.k as nat,
        kem.l as nat,
        kem.l_prime as nat,
        identity,
        m,
        sk.mac_sk,
        sk.y_matrices@,
        sk.y_prime_vectors@,
        g1_rows(pk.m_matrix@),
        g1_cube(pk.z_matrices@),
        g1_rows(pk.z_prime_vectors@),
        scalars(s),
        g2s(usk.t_g2@),
        g2s(usk.u_g2@),
        g2s(usk.v_g2@),
        scalars(r),
        g1s(ct.c0_g1@),
        g1s(ct.c1_g1@),
        key@,
    );
}

} // verus!

//! The key-encapsulation construction with a proof: each ciphertext carries
//! a proof, bound to the identity, that it was formed from the public matrix,
//! and is opened only where that proof is accepted.

use vstd::prelude::*;
use crate::affine_mac::{all_shaped, mac_value, AffineMAC, SecretKey};
use crate::field_utils::{random_matrix, random_vector, rows_have};
use crate::group_ctx::GroupCtx;
use crate::ibkem::{
    decapsulate, decapsulation, encapsulate, exponent_of, is_encapsulation, lifted_z_matrices,
    public_part, secrets_fit, user_value, user_vector, z_primes,
};
use crate::math::{mat_scale, mat_vec, vec_scale};
use crate::correctness::lemma_key_recovered;
use crate::qanizk::{crs_inputs_fit, lemma_proof_verifies, QANIZKProof, CRS, QANIZK};
use crate::types::{
    bytes_then_points, encode_points, g1_cube, g1_rows, g1s, g2s, scalar_cube, scalar_rows,
    scalars, FieldElement, GTElement, Matrix, Vector, G1, G2,
};

verus! {

/// The public key: the matrix `M`, the matrices `Z` and vectors `Z'`, in G1,
/// and the reference string of the proof system for `M`.
pub struct IBKEM2PublicKey {
    pub m_matrix: Matrix<G1>,
    pub z_matrices: Vec<Matrix<G1>>,
    pub z_prime_vectors: Matrix<G1>,
    pub crs: CRS,
}

/// The secret key of the key authority.
pub struct IBKEM2SecretKey {
    pub mac_sk: SecretKey,
    pub y_matrices: Vec<Matrix<FieldElement>>,
    pub y_prime_vectors: Vec<Vector>,
}

/// The secret key of one identity.
pub struct IBKEM2UserSecretKey {
    pub t_g2: Vec<G2>,
    pub u_g2: Vec<G2>,
    pub v_g2: Vec<G2>,
}

/// A ciphertext with its proof.
pub struct IBKEM2Ciphertext {
    pub c0_g1: Vec<G1>,
    pub c1_g1: Vec<G1>,
    pub proof: QANIZKProof,
}

/// The construction for keys of dimension `k`, identities encoded over
/// `l + 1` indices, `l_prime + 1` constant terms and proofs with challenges
/// of `lambda` bits.
pub struct IBKEM2 {
    pub k: usize,
    pub l: usize,
    pub l_prime: usize,
    pub mac: AffineMAC,
    pub qanizk: QANIZK,
    pub group: GroupCtx,
}

/// The tag that binds a proof to an identity and a ciphertext: the bytes of
/// the identity, then the encodings of the points of `c0`.
pub open spec fn proof_tag(identity: Seq<u8>, c0: Seq<nat>) -> Seq<u8> {
    identity + encode_points(c0)
}

impl IBKEM2PublicKey {
    /// The key has the dimensions that `(k, l, l_prime, lambda)` ask for.
    pub open spec fn fits(&self, k: nat, l: nat, l_prime: nat, lambda: nat) -> bool {
        &&& self.m_matrix@.len() == 3 * k
        &&& rows_have(self.m_matrix@, k)
        &&& self.z_matrices@.len() == l + 1
        &&& all_shaped(self.z_matrices@, k, k)
        &&& self.z_prime_vectors@.len() == l_prime + 1
        &&& rows_have(self.z_prime_vectors@, k)
        &&& self.crs.fits(k, lambda, 3 * k, k)
    }
}

impl IBKEM2SecretKey {
    /// The key has the dimensions that `(k, l, l_prime)` ask for.
    pub open spec fn fits(&self, k: nat, l: nat, l_prime: nat) -> bool {
        &&& self.mac_sk.fits(k, l, l_prime)
        &&& self.y_matrices@.len() == l + 1
        &&& all_shaped(self.y_matrices@, k, k)
        &&& self.y_prime_vectors@.len() == l_prime + 1
        &&& rows_have(self.y_prime_vectors@, k)
    }
}

impl IBKEM2UserSecretKey {
    /// The key has the dimensions that `k` asks for.
    pub open spec fn fits(&self, k: nat) -> bool {
        &&& self.t_g2@.len() == k
        &&& self.u_g2@.len() == 2 * k
        &&& self.v_g2@.len() == k
    }
}

impl IBKEM2Ciphertext {
    /// The ciphertext has the dimensions that `k` asks for.
    pub open spec fn fits(&self, k: nat) -> bool {
        &&& self.c0_g1@.len() == 3 * k
        &&& self.c1_g1@.len() == k
        &&& self.proof.t1_g1@.len() == k
        &&& self.proof.u1_g1@.len() == k + 1
    }
}

impl IBKEM2 {
    /// The dimensions fit the machine, the MAC and the proof system have the
    /// same dimensions and the group context is the standard one.
    pub open spec fn valid(&self) -> bool {
        &&& 1 <= self.k
        &&& 3 * self.k <= usize::MAX
        &&& self.l < usize::MAX
        &&& self.l_prime < usize::MAX
        &&& self.mac.valid()
        &&& self.mac.k == self.k
        &&& self.mac.l == self.l
        &&& self.mac.l_prime == self.l_prime
        &&& self.mac.group == self.group
        &&& self.qanizk.valid()
        &&& self.qanizk.k == self.k
        &&& self.qanizk.group == self.group
        &&& self.group.is_standard()
    }

    /// The public matrices are the ones that the secret key and the matrix
    /// `m` give.
    pub open spec fn is_key_pair(
        &self,
        pk: &IBKEM2PublicKey,
        sk: &IBKEM2SecretKey,
        m: Seq<Vec<FieldElement>>,
    ) -> bool {
        let g1 = self.group.g1@;
        let k = self.k as nat;
        &&& g1_rows(pk.m_matrix@) == mat_scale(g1, scalar_rows(m))
        &&& g1_cube(pk.z_matrices@) == lifted_z_matrices(
            g1,
            scalar_cube(sk.y_matrices@),
            scalar_cube(sk.mac_sk.x_matrices@),
            scalar_rows(m),
            k,
        )
        &&& g1_rows(pk.z_prime_vectors@) == mat_scale(
            g1,
            z_primes(
                scalar_rows(sk.y_prime_vectors@),
                scalar_rows(sk.mac_sk.x_prime@),
                scalar_rows(m),
                k,
            ),
        )
    }

    /// The public matrices are the ones that the secret key and some matrix
    /// of `3k` rows and `k` columns give.
    pub open spec fn is_some_key_pair(&self, pk: &IBKEM2PublicKey, sk: &IBKEM2SecretKey) -> bool {
        exists|m: Seq<Vec<FieldElement>>|
            m.len() == 3 * self.k && rows_have(m, self.k as nat) && self.is_key_pair(pk, sk, m)
    }

    /// The user key is the one that the secret key gives the identity with
    /// the randomness `s`.
    pub open spec fn is_user_key(
        &self,
        sk: &IBKEM2SecretKey,
        identity: Seq<u8>,
        s: Seq<FieldElement>,
        usk: &IBKEM2UserSecretKey,
    ) -> bool {
        let g2 = self.group.g2@;
        let k = self.k as nat;
        let l = self.l as nat;
        let l_prime = self.l_prime as nat;
        let t = mat_vec(scalar_rows(sk.mac_sk.b@), scalars(s));
        &&& g2s(usk.t_g2@) == vec_scale(g2, t)
        &&& g2s(usk.u_g2@) == vec_scale(
            g2,
            mac_value(
                scalar_cube(sk.mac_sk.x_matrices@),
                scalar_rows(sk.mac_sk.x_prime@),
                k,
                l,
                l_prime,
                identity,
                t,
            ),
        )
        &&& g2s(usk.v_g2@) == vec_scale(
            g2,
            user_value(
                scalar_cube(sk.y_matrices@),
                scalar_rows(sk.y_prime_vectors@),
                k,
                l,
                l_prime,
                identity,
                t,
            ),
        )
    }

    /// The ciphertext, its proof and the key are the ones that the
    /// randomness `r` of the encapsulation and `s` of the proof give for the
    /// identity under the public key.
    pub open spec fn is_ciphertext(
        &self,
        pk: &IBKEM2PublicKey,
        identity: Seq<u8>,
        r: Seq<FieldElement>,
        s: Seq<FieldElement>,
        ct: &IBKEM2Ciphertext,
        key: GTElement,
    ) -> bool {
        &&& is_encapsulation(
            self.group.g2@,
            self.k as nat,
            self.l as nat,
            self.l_prime as nat,
            g1_rows(pk.m_matrix@),
            g1_cube(pk.z_matrices@),
            g1_rows(pk.z_prime_vectors@),
            identity,
            scalars(r),
            g1s(ct.c0_g1@),
            g1s(ct.c1_g1@),
            key@,
        )
        &&& self.qanizk.is_proof(
            &pk.crs,
            proof_tag(identity, g1s(ct.c0_g1@)),
            ct.c0_g1@,
            r,
            s,
            &ct.proof,
        )
    }

    /// The proof of the ciphertext is accepted for the identity.
    pub open spec fn accepts(
        &self,
        pk: &IBKEM2PublicKey,
        identity: Seq<u8>,
        ct: &IBKEM2Ciphertext,
    ) -> bool {
        self.qanizk.accepts(
            &pk.crs,
            proof_tag(identity, g1s(ct.c0_g1@)),
            ct.c0_g1@,
            &ct.proof,
        )
    }

    /// What the user key opens the ciphertext to under an identity: nothing
    /// where the proof of the ciphertext is not accepted for the identity,
    /// the exponent of the recovered key otherwise.
    pub open spec fn opened(
        &self,
        pk: &IBKEM2PublicKey,
        usk: &IBKEM2UserSecretKey,
        identity: Seq<u8>,
        ct: &IBKEM2Ciphertext,
    ) -> Option<nat> {
        if self.accepts(pk, identity, ct) {
            decapsulation(
                g1s(ct.c0_g1@),
                g1s(ct.c1_g1@),
                g2s(usk.t_g2@),
                g2s(usk.u_g2@),
                g2s(usk.v_g2@),
            )
        } else {
            None
        }
    }

    /// The construction of the given dimensions over the groups of BLS12-381.
    pub fn new(k: usize, l: usize, l_prime: usize, lambda: usize) -> (r: Self)
        requires
            1 <= k,
            3 * k <= usize::MAX,
            l < usize::MAX,
            l_prime < usize::MAX,
            1 <= lambda <= 256,
        ensures
            r.k == k,
            r.l == l,
            r.l_prime == l_prime,
            r.qanizk.lambda == lambda,
            r.valid(),
    {
        let group = GroupCtx::bls12_381();
        let mac = AffineMAC {
            k,
            l,
            l_prime,
            group: GroupCtx { g1: group.g1, g2: group.g2, gt: group.gt },
        };
        let qanizk = QANIZK {
            k,
            lambda,
            group: GroupCtx { g1: group.g1, g2: group.g2, gt: group.gt },
        };
        IBKEM2 { k, l, l_prime, mac, qanizk, group }
    }

    /// The key pair that the given secret matrices and the given reference
    /// string give.
    pub fn setup_from(
        &self,
        m_matrix: &Matrix<FieldElement>,
        mac_sk: SecretKey,
        y_matrices: Vec<Matrix<FieldElement>>,
        y_prime_vectors: Vec<Vector>,
        crs: CRS,
    ) -> (r: (IBKEM2PublicKey, IBKEM2SecretKey))
        requires
            self.valid(),
            secrets_fit(
                m_matrix@,
                &mac_sk,
                y_matrices@,
                y_prime_vectors@,
                self.k as nat,
                self.l as nat,
                self.l_prime as nat,
            ),
            crs.fits(
                self.k as nat,
                self.qanizk.lambda as nat,
                (3 * self.k) as nat,
                self.k as nat,
            ),
        ensures
            self.is_key_pair(&r.0, &r.1, m_matrix@),
            r.0.crs == crs,
            r.1.mac_sk == mac_sk,
            r.1.y_matrices == y_matrices,
            r.1.y_prime_vectors == y_prime_vectors,
            r.0.fits(
                self.k as nat,
                self.l as nat,
                self.l_prime as nat,
                self.qanizk.lambda as nat,
            ),
            r.1.fits(self.k as nat, self.l as nat, self.l_prime as nat),
    {
        let public = public_part(
            &self.group,
            self.k,
            self.l,
            self.l_prime,
            m_matrix,
            &mac_sk,
            &y_matrices,
            &y_prime_vectors,
        );
        let pk = IBKEM2PublicKey {
            m_matrix: public.0,
            z_matrices: public.1,
            z_prime_vectors: public.2,
            crs,
        };
        let sk = IBKEM2SecretKey { mac_sk, y_matrices, y_prime_vectors };
        (pk, sk)
    }

    /// A fresh key pair, with a fresh reference string for its matrix `M`.
    pub fn setup(&self) -> (r: (IBKEM2PublicKey, IBKEM2SecretKey))
        requires
            self.valid(),
        ensures
            self.is_some_key_pair(&r.0, &r.1),
            exists|trapdoor: crate::qanizk::Trapdoor|
                self.qanizk.is_some_crs(&r.0.crs, g1_rows(r.0.m_matrix@), &trapdoor),
            r.0.fits(
                self.k as nat,
                self.l as nat,
                self.l_prime as nat,
                self.qanizk.lambda as nat,
            ),
            r.1.fits(self.k as nat, self.l as nat, self.l_prime as nat),
    {
        let eta: usize = 2 * self.k;
        let m_matrix = random_matrix(self.k + eta, self.k);
        let mac_sk = self.mac.gen_mac();
        let mut y_matrices: Vec<Matrix<FieldElement>> = Vec::new();
        let mut i: usize = 0;
        while i <= self.l
            invariant
                self.valid(),
                i <= self.l + 1,
                y_matrices@.len() == i,
                all_shaped(y_matrices@, self.k as nat, self.k as nat),
            decreases self.l + 1 - i,
        {
            y_matrices.push(random_matrix(self.k, self.k));
            i += 1;
        }
        let mut y_prime_vectors: Vec<Vector> = Vec::new();
        let mut i: usize = 0;
        while i <= self.l_prime
            invariant
                self.valid(),
                i <= self.l_prime + 1,
                y_prime_vectors@.len() == i,
                rows_have(y_prime_vectors@, self.k as nat),
            decreases self.l_prime + 1 - i,
        {
            y_prime_vectors.push(random_vector(self.k));
            i += 1;
        }
        let m_g1 = crate::field_utils::matrix_lift_g1(&m_matrix, &self.group);
        proof {
            crate::field_utils::lemma_scalar_values_shape(m_matrix@, self.k as nat);
            crate::field_utils::lemma_scale_shape(
                self.group.g1@,
                scalar_rows(m_matrix@),
                (3 * self.k) as nat,
                self.k as nat,
            );
            crate::field_utils::lemma_g1_shape(m_g1@, (3 * self.k) as nat, self.k as nat);
        }
        let generated = self.qanizk.gen_crs(&m_g1);
        let r = self.setup_from(&m_matrix, mac_sk, y_matrices, y_prime_vectors, generated.0);
        proof {
            assert(m_matrix@.len() == 3 * self.k && rows_have(m_matrix@, self.k as nat)
                && self.is_key_pair(&r.0, &r.1, m_matrix@));
            assert(g1_rows(r.0.m_matrix@) == g1_rows(m_g1@));
            assert(self.qanizk.is_some_crs(&r.0.crs, g1_rows(r.0.m_matrix@), &generated.1));
        }
        r
    }

    /// The user key of the identity, made with the randomness `s`.
    pub fn extract_with(&self, sk: &IBKEM2SecretKey, identity: &[u8], s: &Vector) -> (usk:
        IBKEM2UserSecretKey)
        requires
            self.valid(),
            sk.fits(self.k as nat, self.l as nat, self.l_prime as nat),
        ensures
            self.is_user_key(sk, identity@, s@, &usk),
    {
        let tag = self.mac.tag_with(&sk.mac_sk, identity, s);
        let v_g2 = user_vector(
            &self.group,
            self.k,
            self.l,
            self.l_prime,
            &sk.y_matrices,
            &sk.y_prime_vectors,
            identity,
            &tag.t_field,
        );
        IBKEM2UserSecretKey { t_g2: tag.t_g2, u_g2: tag.u_g2, v_g2 }
    }

    /// A user key of the identity, made with fresh randomness.
    pub fn extract(&self, sk: &IBKEM2SecretKey, identity: &[u8]) -> (usk: IBKEM2UserSecretKey)
        requires
            self.valid(),
            sk.fits(self.k as nat, self.l as nat, self.l_prime as nat),
        ensures
            exists|s: Seq<FieldElement>|
                s.len() == self.k && self.is_user_key(sk, identity@, s, &usk),
    {
        let s = random_vector(self.k);
        let usk = self.extract_with(sk, identity, &s);
        assert(s@.len() == self.k && self.is_user_key(sk, identity@, s@, &usk));
        usk
    }

    /// The ciphertext with its proof and the encapsulated key for the
    /// identity, made with the randomness `r` for the encapsulation and `s`
    /// for the proof.
    pub fn encrypt_with(
        &self,
        pk: &IBKEM2PublicKey,
        identity: &[u8],
        r: &Vector,
        s: &Vector,
    ) -> (out: (IBKEM2Ciphertext, GTElement))
        requires
            self.valid(),
            pk.fits(
                self.k as nat,
                self.l as nat,
                self.l_prime as nat,
                self.qanizk.lambda as nat,
            ),
        ensures
            self.is_ciphertext(pk, identity@, r@, s@, &out.0, out.1),
    {
        let parts = encapsulate(
            &self.group,
            self.k,
            self.l,
            self.l_prime,
            &pk.m_matrix,
            &pk.z_matrices,
            &pk.z_prime_vectors,
            identity,
            r,
        );
        let tag = bytes_then_points(identity, &parts.0);
        let proof = self.qanizk.prove_with(&pk.crs, tag.as_slice(), &parts.0, r, s);
        (IBKEM2Ciphertext { c0_g1: parts.0, c1_g1: parts.1, proof }, parts.2)
    }

    /// A ciphertext with its proof and the key that it encapsulates for the
    /// identity, made with fresh randomness.
    pub fn encrypt(&self, pk: &IBKEM2PublicKey, identity: &[u8]) -> (out: (
        IBKEM2Ciphertext,
        GTElement,
    ))
        requires
            self.valid(),
            pk.fits(
                self.k as nat,
                self.l as nat,
                self.l_prime as nat,
                self.qanizk.lambda as nat,
            ),
        ensures
            exists|r: Seq<FieldElement>, s: Seq<FieldElement>|
                r.len() == self.k && s.len() == self.k && self.is_ciphertext(
                    pk,
                    identity@,
                    r,
                    s,
                    &out.0,
                    out.1,
                ),
    {
        let r = random_vector(self.k);
        let s = random_vector(self.k);
        let out = self.encrypt_with(pk, identity, &r, &s);
        assert(r@.len() == self.k && s@.len() == self.k && self.is_ciphertext(
            pk,
            identity@,
            r@,
            s@,
            &out.0,
            out.1,
        ));
        out
    }

    /// The key that the user key recovers from the ciphertext, where the
    /// proof of the ciphertext is accepted for the identity; nothing where
    /// it is not.
    pub fn decrypt(
        &self,
        pk: &IBKEM2PublicKey,
        usk: &IBKEM2UserSecretKey,
        identity: &[u8],
        ciphertext: &IBKEM2Ciphertext,
    ) -> (r: Option<GTElement>)
        requires
            self.valid(),
            pk.fits(
                self.k as nat,
                self.l as nat,
                self.l_prime as nat,
                self.qanizk.lambda as nat,
            ),
            usk.fits(self.k as nat),
            ciphertext.fits(self.k as nat),
        ensures
            exponent_of(r) == self.opened(pk, usk, identity@, ciphertext),
    {
        let tag = bytes_then_points(identity, &ciphertext.c0_g1);
        let is_valid = self.qanizk.verify(
            &pk.crs,
            tag.as_slice(),
            &ciphertext.c0_g1,
            &ciphertext.proof,
        );
        if !is_valid {
            return None;
        }
        decapsulate(
            &self.group,
            &usk.t_g2,
            &usk.u_g2,
            &usk.v_g2,
            &ciphertext.c0_g1,
            &ciphertext.c1_g1,
        )
    }
}

/// Decryption recovers the encapsulated key: for a key pair whose
/// reference string is one for its matrix `M`, a user key extracted from
/// the secret key for an identity and a ciphertext made from the public key
/// for the same identity, whatever the randomness of them all, the user key
/// and the ciphertext have the dimensions that `decrypt` asks for, the
/// proof of the ciphertext is accepted for the identity, and `decrypt`
/// gives the key that the ciphertext encapsulates.
pub proof fn lemma_decrypt_recovers_key(
    kem: IBKEM2,
    pk: IBKEM2PublicKey,
    sk: IBKEM2SecretKey,
    m: Seq<Vec<FieldElement>>,
    a: Seq<Vec<FieldElement>>,
    b: Seq<Vec<FieldElement>>,
    k_matrix: Seq<Vec<FieldElement>>,
    kjb: Seq<Vec<Matrix<FieldElement>>>,
    identity: Seq<u8>,
    s: Seq<FieldElement>,
    usk: IBKEM2UserSecretKey,
    r: Seq<FieldElement>,
    s_proof: Seq<FieldElement>,
    ct: IBKEM2Ciphertext,
    key: GTElement,
)
    requires
        kem.valid(),
        m.len() == 3 * kem.k,
        rows_have(m, kem.k as nat),
        sk.fits(kem.k as nat, kem.l as nat, kem.l_prime as nat),
        kem.is_key_pair(&pk, &sk, m),
        crs_inputs_fit(
            pk.m_matrix@,
            a,
            b,
            k_matrix,
            kjb,
            kem.k as nat,
            kem.qanizk.lambda as nat,
            (3 * kem.k) as nat,
            kem.k as nat,
        ),
        kem.qanizk.is_crs(&pk.crs, g1_rows(pk.m_matrix@), a, b, k_matrix, kjb),
        kem.is_user_key(&sk, identity, s, &usk),
        r.len() == kem.k,
        s_proof.len() == kem.k,
        kem.is_ciphertext(&pk, identity, r, s_proof, &ct, key),
    ensures
        usk.fits(kem.k as nat),
        ct.fits(kem.k as nat),
        kem.accepts(&pk, identity, &ct),
        kem.opened(&pk, &usk, identity, &ct) == Some(key@),
{
    lemma_key_recovered(
        kem.k as nat,
        kem.l as nat,
        kem.l_prime as nat,
        identity,
        m,
        sk.mac_sk,
        sk.y_matrices@,
        sk.y_prime_vectors@,
        g1_rows(pk.m_matrix@),
        g1_cube(pk.z_matrices@),
        g1_rows(pk.z_prime_vectors@),
        scalars(s),
        g2s(usk.t_g2@),
        g2s(usk.u_g2@),
        g2s(usk.v_g2@),
        scalars(r),
        g1s(ct.c0_g1@),
        g1s(ct.c1_g1@),
        key@,
    );
    lemma_proof_verifies(
        kem.qanizk,
        pk.crs,
        pk.m_matrix@,
        a,
        b,
        k_matrix,
        kjb,
        proof_tag(identity, g1s(ct.c0_g1@)),
        ct.c0_g1@,
        r,
        s_proof,
        ct.proof,
        (3 * kem.k) as nat,
        kem.k as nat,
    );
}

} // verus!

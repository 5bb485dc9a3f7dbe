//! Identity-based key encapsulation from an affine MAC and a quasi-adaptive
//! proof of subspace membership, over the pairing groups of BLS12-381.
//!
//! The two constructions are [`IBKEM1`], whose ciphertexts carry no proof,
//! and [`IBKEM2`], whose ciphertexts carry a proof that binds them to the
//! identity. Both are built from [`AffineMAC`]; the second also from
//! [`QANIZK`]. Three textbook schemes over the same groups stand beside
//! them in the modules `bb`, `bf` and `lw`.
//!
//! Every element of a group is described by its exponent with respect to
//! the generator of the group, so that the contracts are statements of
//! linear algebra modulo the group order. That a user key opens the
//! ciphertexts of its identity, that a tag of the MAC is accepted and that
//! a proof made from a witness is accepted are proved from these contracts.

pub mod affine_mac;
pub mod algebra;
pub mod bb;
pub mod bf;
pub mod bit_utils;
pub mod blake3;
pub mod completeness;
pub mod correctness;
pub mod f_functions;
pub mod field_utils;
pub mod group_ctx;
pub mod group_functions;
pub mod hashing;
pub mod ibkem;
pub mod ibkem1;
pub mod ibkem2;
pub mod lw;
pub mod math;
pub mod qanizk;
pub mod types;

pub use affine_mac::{AffineMAC, SecretKey, Tag};
pub use field_utils::{
    g1_matrix_field_multiply, group_matrix_vector_mul_msm, matrix_add_g1, matrix_add_g2,
    matrix_concat, matrix_lift_g1, matrix_lift_g2, matrix_multiply, matrix_multiply_scalar,
    matrix_transpose, matrix_vector_mul, matrix_zero, random_field_element, random_matrix,
    random_vector, scalar_vector_mul, vector_add, vector_add_g1, vector_concat, vector_lift_g1,
    vector_lift_g2, vector_zero,
};
pub use group_ctx::GroupCtx;
pub use hashing::{
    blake3_hash_bytes, blake3_hash_to_bits, generate_email_and_hash_identity,
    generate_random_email, generate_random_message_128, hash_to_fr, hash_to_g1,
};
pub use ibkem1::{
    IBKEM1Ciphertext, IBKEM1PublicKey, IBKEM1SecretKey, IBKEM1UserSecretKey, IBKEM1,
};
pub use ibkem2::{
    IBKEM2Ciphertext, IBKEM2PublicKey, IBKEM2SecretKey, IBKEM2UserSecretKey, IBKEM2,
};
pub use qanizk::{QANIZKProof, Trapdoor, CRS, QANIZK};
pub use types::{field_element, FieldElement, GTElement, Matrix, Vector, G1, G2};

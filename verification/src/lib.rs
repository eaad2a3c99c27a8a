//! Parameters and rounds of the FRI proximity protocol over binary fields, and the
//! 256-bit word that packed binary field arithmetic is built on.
//!
//! The protocol lets a prover commit to a vector and convince a verifier that the vector
//! is close to a codeword of a Reed–Solomon code. This crate holds what can be decided
//! from the shape of the code alone:
//!
//! * [`queries`]: how many positions the verifier must query for a target security level;
//! * [`params`]: the parameters of one instance, and how they are chosen for a constant
//!   fold arity;
//! * [`arity`]: an estimate of the fold arity that makes a proof smallest;
//! * [`merkle_tree`]: which layer of each Merkle tree is sent in full;
//! * [`protocol`]: the order of commitments, challenges and verdict as a state machine;
//! * [`query`]: the cosets that one query opens;
//! * [`reed_solomon`], [`log2`], [`bignat`], [`error`]: what the above rest on.
//!
//! The word type [`m256::M256`] comes with its bits ([`m256_bits`]), its bytes
//! ([`m256_bytes`]), its blocks ([`m256_blocks`], [`m256_gather`]) and selection in
//! constant time ([`m256_select`]).
//!
//! Every function is verified against its contract, except two small functions in
//! [`m256_select`] whose contracts state what the crate `subtle` computes.

pub mod error;
pub mod log2;
pub mod bignat;
pub mod reed_solomon;
pub mod queries;
pub mod params;
pub mod merkle_tree;
pub mod protocol;
pub mod query;
pub mod arity;
pub mod m256;
pub mod m256_bits;
pub mod m256_select;
pub mod m256_bytes;
pub mod m256_blocks;
pub mod m256_gather;

//! Succinct proofs that a public key is the aggregate of a subset of a
//! committed set of public keys, the subset being identified by a bitmask.
//!
//! A set of keys on BLS12-377 is committed to once, by KZG commitments over
//! BW6-761 to the polynomials that interpolate the keys' coordinates. A prover
//! who holds the set then shows, for a bitmask, that a key is the sum of the
//! keys that the bitmask selects; a verifier who holds the commitment checks
//! the proof at a cost that does not grow with the set.
//!
//! The sum is arithmetized as a table of registers over a domain of `n` rows:
//! the bitmask, the keys, and the partial sums, which start at a point outside
//! the group of the keys. Constraint polynomials vanish on the domain where
//! each partial sum follows from the one before. The prover commits to the
//! registers, draws its challenges from a transcript of everything sent so
//! far, commits to the quotient of the combined constraints by the vanishing
//! polynomial of the domain, and opens all polynomials at one point.
//!
//! - [`field`] and [`base_field`]: the two prime fields, with their elements
//!   as plain limbs; [`curve`] and [`bw6`]: points of the groups.
//! - [`poly`], [`domains`], [`utils`]: polynomials, the two evaluation
//!   domains, and what both sides compute at the evaluation point.
//! - [`bitmask`], [`keyset`], [`public_input`]: the data of a statement.
//! - [`constraints`] and [`piop`]: the registers, their constraints, and the
//!   three protocols built on them.
//! - [`kzg`] and [`transcript`]: the commitment scheme and the Fiat-Shamir
//!   transcript, both behind a narrow interface.
//! - [`prover`] and [`verification`]: the two sides of the protocol.
//! - [`endo`]: a fast subgroup test for commitments.
//!
//! Field and group arithmetic, the transforms, the commitment scheme and the
//! transcript are those of `ark-*`, `w3f-pcs` and `merlin`. What is taken
//! from them is stated where it is taken; everything else is proved.
pub mod field;
pub mod base_field;
pub mod poly;
pub mod domains;
pub mod utils;
pub mod bitmask;
pub mod curve;
pub mod bw6;
pub mod kzg;
pub mod constraints;
pub mod keyset;
pub mod transcript;
pub mod public_input;
pub mod piop;
pub mod prover;
pub mod verification;
pub mod endo;

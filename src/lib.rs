//! Discrete-log sigma protocols over the prime-order Edwards group of
//! Curve25519: one-of-many linear relation proofs, the inner-product
//! argument, aggregated range proofs, Schnorr-or-range disjunctions, value
//! commitment rings, spending-limit chains and transaction assembly.

pub mod scalar;
pub mod point;
pub mod sort;
pub mod zkplmt;
pub mod vectors;
pub mod bases;
pub mod schnorr;
pub mod ipa;
pub mod range;
pub mod value_bound_signature;
pub mod transaction;
pub mod kyc_proof;
pub mod range_proof;
pub mod dlog;

//! Zero-knowledge identity verification.
//!
//! The crate has three layers. The constraint layer ([`r1cs`]) models an
//! arithmetic circuit as an explicit list of rank-1 constraints over
//! integer-valued variables, and the predicate circuits ([`circuits`]) emit
//! their constraints into it in a fixed allocation order. The registry layer
//! ([`registry`]) binds verification keys to circuit identifiers and records
//! each successfully verified (subject, circuit) pair exactly once, calling
//! the pairing-based proof system only through a narrow trusted boundary
//! ([`groth16`]). The vault ([`vault`]) stores per-account attestations.

pub mod bytes;
pub mod circuits;
pub mod groth16;
pub mod r1cs;
pub mod registry;
pub mod vault;

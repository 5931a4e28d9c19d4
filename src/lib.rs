//! Provable execution of a group-by / sum / count query node over a prime field.
//!
//! A node runs in four passes that must agree: a count pass declares the resources the other
//! passes use, a result pass computes the plaintext answer, a prove pass adds witness vectors
//! and proof identities, and a verify pass replays the identities on claimed evaluations.
//! The group-by node proves that its groups aggregate the selected input rows with a
//! fingerprint of each key tuple and batch inversion.
pub mod aggregate;
pub mod ast;
pub mod builders;
pub mod database;
pub mod fold;
pub mod group_by;
pub mod proof_expr;
pub mod protocol;
pub mod query_context;
pub mod scalar;
pub mod zero_sum;

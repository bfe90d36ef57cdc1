//! Mutation result records.
//!
//! The mutation executor itself lives with the persistent store, outside
//! this crate; these are the plain records it reports back.

use vstd::prelude::*;

verus! {

/// The outcome of one mutation inside a transaction.
#[derive(Debug, Clone, PartialEq, Eq)]
pub struct MutationResult {
    /// The id of the affected document.
    pub id: String,
    /// The operation performed (e.g. "create", "update", "delete").
    pub operation: String,
}

/// The outcome of a whole mutation transaction.
#[derive(Debug, Clone, PartialEq, Eq)]
pub struct MutationResponse {
    /// The transaction's id.
    pub transaction_id: String,
    /// One result per mutation, in order.
    pub results: Vec<MutationResult>,
}

} // verus!

//! Engine-level configuration, options, limits and transaction bookkeeping.

pub mod audit;
pub mod backup;
pub mod collection;
pub mod config;
pub mod crud;
pub mod encryption;
pub mod explain;
pub mod open;
pub mod relation;
pub mod security;
pub mod timeseries;
pub mod trigger;
pub mod txn_ops;
pub mod versioning;

use std::collections::HashMap;

use vstd::prelude::*;

verus! {

/// Options of a write (insert, update, delete): the session and transaction
/// number that make it retryable.
#[derive(Debug, Clone, Default)]
pub struct WriteOptions {
    pub lsid: Option<[u8; 16]>,
    pub txn_number: Option<u64>,
}

/// Options of a find.
#[derive(Debug, Clone, Default)]
pub struct FindOptions {
    /// Field projection: field name to 1 (include) or 0 (exclude).
    pub projection: Option<HashMap<String, i32>>,
    /// Sort specification: (field, direction).
    pub sort: Option<Vec<(String, i32)>>,
    /// Maximum documents to return.
    pub limit: Option<usize>,
    /// Documents to skip.
    pub skip: usize,
}

} // verus!

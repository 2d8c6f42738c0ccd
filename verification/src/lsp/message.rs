//! Minimal JSON-RPC envelope pieces for LSP traffic: request ids and
//! response errors.

use vstd::prelude::*;

verus! {

/// A JSON-RPC request id: a number or a string.
#[derive(Debug, Clone, PartialEq, Eq, Hash)]
pub enum RequestId {
    Number(i64),
    String(String),
}

impl RequestId {
    /// The numeric id `n`.
    pub fn number(n: i64) -> (r: Self)
        ensures
            r == RequestId::Number(n),
    {
        RequestId::Number(n)
    }
}

/// The `error` member of a JSON-RPC response.
#[derive(Debug, Clone)]
pub struct ResponseError {
    pub code: i64,
    pub message: String,
}

} // verus!

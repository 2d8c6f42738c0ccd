//! Language-server plumbing that needs no I/O: message framing, position
//! conversion between the editor's coordinates and LSP's, the JSON-RPC
//! envelope's ids, the per-document change bookkeeping, and the registry
//! of running clients.

pub mod client;
pub mod codec;
pub mod document;
pub mod message;
pub mod position;
pub mod registry;
pub mod runtime;
pub mod session;

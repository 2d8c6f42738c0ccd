//! Core data structures and pure text logic of the rizz editor: a bounded
//! ring buffer, vim-style registers, word motions and text objects over a
//! rope, LSP position conversion and framing, and the install cache layout.

pub mod ringbuffer;
pub mod strs;
pub mod registers;
pub mod text;
pub mod lsp;
pub mod install;
pub mod assoc;
pub mod highlight;
pub mod search;
pub mod ts_registry;
pub mod workspace;

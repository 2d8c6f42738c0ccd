//! Shared primitives for declarative language-backend installers (grammars
//! and LSP servers): where their cache artefacts live, the extension index
//! of a manifest, and the per-name warning/failure bookkeeping.
//!
//! Cache artefacts land under `$XDG_DATA_HOME/rizz/<kind>/<name>/`. A
//! location is described as a [`layout::CachePath`]: a root directory and
//! the components joined onto it in order.

pub mod grammar;
pub mod layout;
pub mod lsp;
pub mod lsp_install;
pub mod grammar_install;
pub mod manifest;

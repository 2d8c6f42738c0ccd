//! LSP server installs: cache layout under `$XDG_DATA_HOME/rizz/lsp/`.
//!
//! ```text
//! $XDG_DATA_HOME/rizz/lsp/
//! └── <name>/
//!     ├── bin/<command>     binary produced by the install recipe
//!     ├── .stamp            sha256(recipe) + command, used to skip re-runs
//!     └── log/install.log   captured stdout+stderr from the last recipe run
//! ```

use vstd::prelude::*;

use crate::install::layout::{self, opt_str_view, spec_data_base, CachePath};

verus! {

/// Root cache directory: `$XDG_DATA_HOME/rizz/lsp` (or
/// `$HOME/.local/share/rizz/lsp`), given the two variables' values.
pub fn cache_root(xdg_data_home: Option<&str>, home: Option<&str>) -> (p: CachePath)
    ensures
        p@ == ({
            let b = spec_data_base(opt_str_view(xdg_data_home), opt_str_view(home));
            (b.0, b.1.push("rizz"@).push("lsp"@))
        }),
{
    layout::cache_root_for(xdg_data_home, home, "lsp")
}

/// `<root>/<name>`.
pub fn server_dir(root: &str, name: &str) -> (p: CachePath)
    ensures
        p@ == (root@, seq![name@]),
{
    layout::entry_dir(root, name)
}

/// `<root>/<name>/bin`.
pub fn bin_dir(root: &str, name: &str) -> (p: CachePath)
    ensures
        p@ == (root@, seq![name@, "bin"@]),
{
    let p = server_dir(root, name).join("bin");
    assert(p@.1 =~= seq![name@, "bin"@]);
    p
}

/// `<root>/<name>/bin/<command>`.
pub fn binary_path(root: &str, name: &str, command: &str) -> (p: CachePath)
    ensures
        p@ == (root@, seq![name@, "bin"@, command@]),
{
    let p = bin_dir(root, name).join(command);
    assert(p@.1 =~= seq![name@, "bin"@, command@]);
    p
}

/// `<root>/<name>/.stamp`.
pub fn stamp_path(root: &str, name: &str) -> (p: CachePath)
    ensures
        p@ == (root@, seq![name@, ".stamp"@]),
{
    layout::stamp_path(root, name)
}

/// `<root>/<name>/log/install.log`.
pub fn log_path(root: &str, name: &str) -> (p: CachePath)
    ensures
        p@ == (root@, seq![name@, "log"@, "install.log"@]),
{
    let p = server_dir(root, name).join("log").join("install.log");
    assert(p@.1 =~= seq![name@, "log"@, "install.log"@]);
    p
}

} // verus!

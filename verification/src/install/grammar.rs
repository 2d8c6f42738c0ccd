//! Tree-sitter grammar installs: cache layout under
//! `$XDG_DATA_HOME/rizz/grammars/`.
//!
//! ```text
//! $XDG_DATA_HOME/rizz/grammars/
//! └── <name>/
//!     ├── parser.{so,dylib,dll}   the shared library that gets loaded
//!     ├── highlights.scm          query, copied from the source repo
//!     ├── .stamp                  resolved repo+rev, used to skip rebuilds
//!     └── src/                    git checkout, kept for incremental rebuilds
//! ```

use vstd::prelude::*;

use crate::install::layout::{opt_str_view, spec_data_base, CachePath};
use crate::strs::str_eq;

verus! {

/// Root cache directory: `$XDG_DATA_HOME/rizz/grammars` (or
/// `$HOME/.local/share/rizz/grammars`), given the two variables' values.
pub fn cache_root(xdg_data_home: Option<&str>, home: Option<&str>) -> (p: CachePath)
    ensures
        p@ == ({
            let b = spec_data_base(opt_str_view(xdg_data_home), opt_str_view(home));
            (b.0, b.1.push("rizz"@).push("grammars"@))
        }),
{
    crate::install::layout::cache_root_for(xdg_data_home, home, "grammars")
}

/// `<root>/<name>`.
pub fn grammar_dir(root: &str, name: &str) -> (p: CachePath)
    ensures
        p@ == (root@, seq![name@]),
{
    crate::install::layout::entry_dir(root, name)
}

/// `<root>/<name>/src`.
pub fn source_dir(root: &str, name: &str) -> (p: CachePath)
    ensures
        p@ == (root@, seq![name@, "src"@]),
{
    let p = grammar_dir(root, name).join("src");
    assert(p@.1 =~= seq![name@, "src"@]);
    p
}

/// The shared-library file name for target OS `os` (as
/// `std::env::consts::OS` names it): `parser.dylib` on macOS, `parser.dll`
/// on Windows, `parser.so` elsewhere.
pub open spec fn spec_library_filename(os: Seq<char>) -> Seq<char> {
    if os == "macos"@ {
        "parser.dylib"@
    } else if os == "windows"@ {
        "parser.dll"@
    } else {
        "parser.so"@
    }
}

/// Host-specific shared library filename for target OS `os`.
pub fn library_filename(os: &str) -> (f: &'static str)
    ensures
        f@ == spec_library_filename(os@),
{
    if str_eq(os, "macos") {
        "parser.dylib"
    } else if str_eq(os, "windows") {
        "parser.dll"
    } else {
        "parser.so"
    }
}

/// `<root>/<name>/parser.{so,dylib,dll}` for target OS `os`.
pub fn library_path(root: &str, name: &str, os: &str) -> (p: CachePath)
    ensures
        p@ == (root@, seq![name@, spec_library_filename(os@)]),
{
    let p = grammar_dir(root, name).join(library_filename(os));
    assert(p@.1 =~= seq![name@, spec_library_filename(os@)]);
    p
}

/// `<root>/<name>/highlights.scm`.
pub fn highlights_path(root: &str, name: &str) -> (p: CachePath)
    ensures
        p@ == (root@, seq![name@, "highlights.scm"@]),
{
    let p = grammar_dir(root, name).join("highlights.scm");
    assert(p@.1 =~= seq![name@, "highlights.scm"@]);
    p
}

/// `<root>/<name>/.stamp`.
pub fn stamp_path(root: &str, name: &str) -> (p: CachePath)
    ensures
        p@ == (root@, seq![name@, ".stamp"@]),
{
    let p = grammar_dir(root, name).join(".stamp");
    assert(p@.1 =~= seq![name@, ".stamp"@]);
    p
}

} // verus!

//! Language detection for syntax highlighting, and the highlighted span
//! shape handed to the renderer.

use vstd::prelude::*;

use crate::strs::str_eq;

verus! {

#[derive(Debug, Clone, Copy, PartialEq, Eq, Structural)]
pub enum Language {
    Rust,
}

/// One captured byte range with the conventional capture name (`"keyword"`,
/// `"string"`, …).
#[derive(Debug, Clone)]
pub struct HighlightSpan {
    pub start_byte: usize,
    pub end_byte: usize,
    pub capture: String,
}

/// The extension of a file name: what follows its last `.`, unless there
/// is no `.`, or the only `.` is the first char, or the name is `..`.
pub open spec fn spec_extension(name: Seq<char>) -> Option<Seq<char>> {
    if name == ".."@ {
        None
    } else {
        match last_dot(name, name.len() as int) {
            None => None,
            Some(k) => if k == 0 {
                None
            } else {
                Some(name.subrange(k + 1, name.len() as int))
            },
        }
    }
}

/// Index of the last `.` before position `i`.
pub open spec fn last_dot(name: Seq<char>, i: int) -> Option<int>
    decreases i,
{
    if i <= 0 || i > name.len() {
        None
    } else if name[i - 1] == '.' {
        Some(i - 1)
    } else {
        last_dot(name, i - 1)
    }
}

proof fn lemma_last_dot(name: Seq<char>, i: int)
    ensures
        last_dot(name, i) matches Some(k) ==> 0 <= k < i && k < name.len(),
    decreases i,
{
    if 0 < i <= name.len() && name[i - 1] != '.' {
        lemma_last_dot(name, i - 1);
    }
}

/// Index of the last `/` before position `i`.
pub open spec fn last_slash(p: Seq<char>, i: int) -> Option<int>
    decreases i,
{
    if i <= 0 || i > p.len() {
        None
    } else if p[i - 1] == '/' {
        Some(i - 1)
    } else {
        last_slash(p, i - 1)
    }
}

/// The last `/`-separated part of a path: what follows its last `/`, or
/// the whole path when it has none.
pub open spec fn last_part(p: Seq<char>) -> Seq<char> {
    match last_slash(p, p.len() as int) {
        None => p,
        Some(k) => p.subrange(k + 1, p.len() as int),
    }
}

/// A path whose file name every platform reads the same way: no `\` (a
/// separator on Windows), no `:` (a drive prefix there), no leading `//`
/// (a network share there), and its last part is a name, not empty, `.`
/// or `..`.
pub open spec fn names_file(p: Seq<char>) -> bool {
    &&& !p.contains('\\')
    &&& !p.contains(':')
    &&& !(p.len() >= 2 && p[0] == '/' && p[1] == '/')
    &&& last_part(p).len() > 0
    &&& last_part(p) != "."@
    &&& last_part(p) != ".."@
}

/// The language a file extension picks: `rs` is Rust.
pub open spec fn spec_language_of_extension(ext: Option<Seq<char>>) -> Option<Language> {
    if ext == Some("rs"@) {
        Some(Language::Rust)
    } else {
        None
    }
}

/// `Path::file_name` of `path`, as text. The contract states what the
/// documentation gives for a path whose last `/`-separated part is a plain
/// name: that part is the file name. Left unstated are paths that end in
/// `/`, `.` or `..`, which `Path` normalises, and paths with `\`, `:` or a
/// leading `//`, which Windows reads as separators or prefixes.
#[verifier::external_body]
pub(crate) fn path_file_name(path: &str) -> (r: Option<String>)
    ensures
        names_file(path@) ==> (r is Some && r->Some_0@ == last_part(path@)),
{
    std::path::Path::new(path).file_name().map(|n| n.to_string_lossy().into_owned())
}

/// The extension of a file name (`Path::extension` applied to its file
/// name).
pub fn file_extension(name: &str) -> (r: Option<&str>)
    ensures
        match r {
            Some(e) => spec_extension(name@) == Some(e@),
            None => spec_extension(name@) is None,
        },
{
    if str_eq(name, "..") {
        return None;
    }
    let n = name.unicode_len();
    let mut i = n;
    while i > 0 && name.get_char(i - 1) != '.'
        invariant
            n == name@.len(),
            i <= n,
            last_dot(name@, i as int) == last_dot(name@, n as int),
        decreases i,
    {
        i = i - 1;
    }
    if i <= 1 {
        return None;
    }
    Some(name.substring_char(i, n))
}

impl Language {
    /// The language of a file, picked by its extension.
    pub fn from_extension(ext: Option<&str>) -> (r: Option<Self>)
        ensures
            r == spec_language_of_extension(
                match ext {
                    Some(e) => Some(e@),
                    None => None,
                },
            ),
    {
        match ext {
            Some(e) => if str_eq(e, "rs") {
                Some(Language::Rust)
            } else {
                None
            },
            None => None,
        }
    }

    /// The language of the file at `path`, picked by the extension of its
    /// file name, the path's last part.
    pub fn from_path(path: &str) -> (r: Option<Self>)
        ensures
            names_file(path@) ==> r == spec_language_of_extension(
                spec_extension(last_part(path@)),
            ),
    {
        match path_file_name(path) {
            Some(name) => Self::from_extension(file_extension(name.as_str())),
            None => None,
        }
    }
}

} // verus!

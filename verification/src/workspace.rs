//! Where the editor works: the working directory picked from the path it
//! was started on, the workspace root found by walking up to a marker
//! file, and the `file://` URIs that name files to language servers.
//! Paths are text here; looking at the filesystem is the caller's work,
//! which hands over what it found.

use vstd::prelude::*;

use crate::strs::{chars_to_string, collect_chars, slice_chars};

verus! {

/// The working directory for a start path: the path itself when it is a
/// directory, else its parent (the current directory when it has none);
/// the current directory when no path was given.
pub open spec fn spec_workdir(
    path: Option<Seq<char>>,
    path_is_dir: bool,
    parent: Option<Seq<char>>,
    cwd: Seq<char>,
) -> Seq<char> {
    match path {
        Some(p) => if path_is_dir {
            p
        } else {
            match parent {
                Some(q) => q,
                None => cwd,
            }
        },
        None => cwd,
    }
}

/// Pick the working directory (see [`spec_workdir`]); `path_is_dir` and
/// `parent` describe `path`.
pub fn resolve_workdir(path: Option<&str>, path_is_dir: bool, parent: Option<&str>, cwd: &str) -> (w:
    String)
    ensures
        w@ == spec_workdir(
            match path {
                Some(p) => Some(p@),
                None => None,
            },
            path_is_dir,
            match parent {
                Some(q) => Some(q@),
                None => None,
            },
            cwd@,
        ),
{
    match path {
        Some(p) => if path_is_dir {
            p.to_owned()
        } else {
            match parent {
                Some(q) => q.to_owned(),
                None => cwd.to_owned(),
            }
        },
        None => cwd.to_owned(),
    }
}

/// The workspace root: among the directories from the start directory
/// upwards (`dirs`, nearest first), the first that holds a marker file;
/// else the start directory.
pub open spec fn spec_workspace_root(dirs: Seq<Seq<char>>, has_marker: Seq<bool>) -> Option<Seq<char>>
    decreases dirs.len(),
{
    first_marked(dirs, has_marker, 0)
}

/// The first of `dirs` from index `i` on that holds a marker, else the
/// start directory; none without directories.
pub open spec fn first_marked(dirs: Seq<Seq<char>>, has_marker: Seq<bool>, i: int) -> Option<Seq<char>>
    decreases dirs.len() - i,
{
    if dirs.len() == 0 {
        None
    } else if i < 0 || i >= dirs.len() {
        Some(dirs[0])
    } else if i < has_marker.len() && has_marker[i] {
        Some(dirs[i])
    } else {
        first_marked(dirs, has_marker, i + 1)
    }
}

/// Walk up from the start directory: `dirs` are it and its ancestors,
/// nearest first, and `has_marker[i]` says whether `dirs[i]` holds any of
/// the root markers. None when there is no start directory (the start path
/// had no parent).
pub fn find_workspace_root(dirs: &[String], has_marker: &[bool]) -> (r: Option<String>)
    ensures
        match r {
            Some(d) => spec_workspace_root(dirs@.map_values(|s: String| s@), has_marker@) == Some(d@),
            None => spec_workspace_root(dirs@.map_values(|s: String| s@), has_marker@) is None,
        },
{
    let ghost ds = dirs@.map_values(|s: String| s@);
    if dirs.len() == 0 {
        return None;
    }
    let mut i: usize = 0;
    while i < dirs.len()
        invariant
            ds == dirs@.map_values(|s: String| s@),
            ds.len() > 0,
            i <= dirs@.len(),
            first_marked(ds, has_marker@, i as int) == first_marked(ds, has_marker@, 0),
        decreases dirs@.len() - i,
    {
        if i < has_marker.len() && has_marker[i] {
            return Some(dirs[i].clone());
        }
        i = i + 1;
    }
    Some(dirs[0].clone())
}

/// `s` with every `from` replaced by `to`.
pub open spec fn replace_char(s: Seq<char>, from: char, to: char) -> Seq<char> {
    s.map_values(|c: char| if c == from { to } else { c })
}

fn replace_char_exec(s: &str, from: char, to: char) -> (r: String)
    ensures
        r@ == replace_char(s@, from, to),
{
    let v = collect_chars(s);
    let mut out: Vec<char> = Vec::new();
    let mut i: usize = 0;
    while i < v.len()
        invariant
            v@ == s@,
            i <= v@.len(),
            out@ == replace_char(s@.take(i as int), from, to),
        decreases v@.len() - i,
    {
        let c = v[i];
        out.push(if c == from { to } else { c });
        i = i + 1;
        assert(out@ =~= replace_char(s@.take(i as int), from, to));
    }
    assert(s@.take(i as int) =~= s@);
    chars_to_string(&out)
}

/// The `file://` URI of an absolute path (backslashes turned into slashes
/// and a third slash added on Windows).
pub open spec fn spec_path_uri(path: Seq<char>, windows: bool) -> Seq<char> {
    if windows {
        "file:///"@ + replace_char(path, '\\', '/')
    } else {
        "file://"@ + path
    }
}

/// The `file://` URI of the absolute path `path` (canonicalized by the
/// caller where it could be); `windows` says whether paths are Windows
/// paths.
pub fn path_to_uri(path: &str, windows: bool) -> (u: String)
    ensures
        u@ == spec_path_uri(path@, windows),
{
    if windows {
        let mut u = "file:///".to_owned();
        let p = replace_char_exec(path, '\\', '/');
        u.append(p.as_str());
        u
    } else {
        let mut u = "file://".to_owned();
        u.append(path);
        u
    }
}

/// `s` without its leading `c`s.
pub open spec fn trim_start_char(s: Seq<char>, c: char) -> Seq<char>
    decreases s.len(),
{
    if s.len() > 0 && s[0] == c {
        trim_start_char(s.drop_first(), c)
    } else {
        s
    }
}

/// The path a `file://` URI names; none for any other scheme. On Windows
/// the leading slashes go and slashes become backslashes.
pub open spec fn spec_uri_path(uri: Seq<char>, windows: bool) -> Option<Seq<char>> {
    let scheme = "file://"@;
    if uri.len() >= scheme.len() && uri.take(scheme.len() as int) == scheme {
        let rest = uri.skip(scheme.len() as int);
        Some(
            if windows {
                replace_char(trim_start_char(rest, '/'), '/', '\\')
            } else {
                rest
            },
        )
    } else {
        None
    }
}

/// Convert a `file://` URI back into a path; none for other schemes (the
/// editor cannot open remote URIs).
pub fn uri_to_path(uri: &str, windows: bool) -> (p: Option<String>)
    ensures
        match p {
            Some(x) => spec_uri_path(uri@, windows) == Some(x@),
            None => spec_uri_path(uri@, windows) is None,
        },
{
    let v = collect_chars(uri);
    let scheme = "file://";
    proof {
        reveal_strlit("file://");
    }
    let n: usize = 7;
    if v.len() < n {
        return None;
    }
    let mut i: usize = 0;
    while i < n
        invariant
            v@ == uri@,
            n == scheme@.len(),
            n <= v@.len(),
            i <= n,
            forall|j: int| 0 <= j < i ==> v@[j] == scheme@[j],
            scheme@ == "file://"@,
        decreases n - i,
    {
        if v[i] != scheme.get_char(i) {
            proof {
                assert(uri@.take(n as int)[i as int] != scheme@[i as int]);
                assert(uri@.take(n as int) != scheme@);
                assert(scheme@ == "file://"@);
            }
            return None;
        }
        i = i + 1;
    }
    assert(uri@.take(n as int) =~= scheme@);
    let rest = slice_chars(&v, n, v.len());
    assert(rest@ =~= uri@.skip(n as int));
    if !windows {
        return Some(chars_to_string(&rest));
    }
    let mut k: usize = 0;
    let m = rest.len();
    assert(rest@.subrange(0, m as int) =~= rest@);
    while k < m && rest[k] == '/'
        invariant
            m == rest@.len(),
            k <= m,
            trim_start_char(rest@, '/') == trim_start_char(rest@.subrange(k as int, m as int), '/'),
        decreases m - k,
    {
        assert(rest@.subrange(k as int, m as int).drop_first() =~= rest@.subrange(k + 1, m as int));
        k = k + 1;
    }
    let trimmed = chars_to_string(&slice_chars(&rest, k, m));
    Some(replace_char_exec(trimmed.as_str(), '/', '\\'))
}

/// On Unix, a path turned into a URI turns back into itself.
pub proof fn law_uri_roundtrip_unix(path: Seq<char>)
    ensures
        spec_uri_path(spec_path_uri(path, false), false) == Some(path),
{
    reveal_strlit("file://");
    let u = spec_path_uri(path, false);
    assert(u.take(7) =~= "file://"@);
    assert(u.skip(7) =~= path);
}

} // verus!

//! What a grammar install decides: the manifest entry merged with per-call
//! options, the stamp that says whether a cached build is current, and
//! where the build and the highlights query are taken from. Cloning,
//! building and copying files are left to the caller, which runs these
//! decisions in order:
//!
//! 1. [`resolve`] the spec (an unknown name without a repo or path fails);
//! 2. take the source from `path`, or clone `repo` into
//!    [`crate::install::grammar::source_dir`], noting the checked-out commit;
//! 3. compute [`stamp_for`] and, unless forced, return the cached build when
//!    [`cache_hit`] finds its stamp current;
//! 4. build in [`build_dir`], copy the query found at [`queries_source`],
//!    write the stamp, and report [`installed`].

use vstd::prelude::*;

use crate::install::grammar::{highlights_path, library_path, spec_library_filename};
use crate::install::layout::CachePath;
use crate::install::manifest::{Manifest, Spec};
use crate::strs::str_eq;

verus! {

/// One row of the grammars manifest. Every field except `repo` and
/// `extensions` is optional; defaults are picked at install time.
#[derive(Debug)]
pub struct GrammarSpec {
    pub repo: String,
    pub branch: Option<String>,
    pub rev: Option<String>,
    pub subdir: Option<String>,
    pub extensions: Vec<String>,
    /// Override of the C symbol suffix (`tree_sitter_<language>`) when it
    /// differs from the table key.
    pub language: Option<String>,
    /// Override of the highlights query path, relative to the source root.
    pub queries: Option<String>,
}

impl Spec for GrammarSpec {
    open spec fn spec_extensions(&self) -> Seq<Seq<char>> {
        self.extensions@.map_values(|s: String| s@)
    }

    fn extensions(&self) -> (r: &[String]) {
        self.extensions.as_slice()
    }
}

/// An optional string as text.
pub open spec fn opt_view(o: Option<String>) -> Option<Seq<char>> {
    match o {
        Some(s) => Some(s@),
        None => None,
    }
}

/// A list of strings as text.
pub open spec fn strings_view(v: Seq<String>) -> Seq<Seq<char>> {
    v.map_values(|s: String| s@)
}

/// `first` when it is set, else `second`.
pub open spec fn or_else(first: Option<Seq<char>>, second: Option<Seq<char>>) -> Option<Seq<char>> {
    if first is Some {
        first
    } else {
        second
    }
}

pub fn clone_opt(o: &Option<String>) -> (r: Option<String>)
    ensures
        opt_view(r) == opt_view(*o),
{
    match o {
        Some(s) => Some(s.clone()),
        None => None,
    }
}

pub fn clone_strings(v: &Vec<String>) -> (r: Vec<String>)
    ensures
        strings_view(r@) == strings_view(v@),
{
    let mut r: Vec<String> = Vec::new();
    let mut i: usize = 0;
    while i < v.len()
        invariant
            i <= v@.len(),
            r@ == v@.take(i as int),
        decreases v@.len() - i,
    {
        r.push(v[i].clone());
        i = i + 1;
        assert(r@ =~= v@.take(i as int));
    }
    assert(v@.take(i as int) =~= v@);
    r
}

/// Per-call overrides on top of the manifest entry. Every field is
/// optional; a bare install of a name uses [`InstallOpts::default`].
#[derive(Debug)]
pub struct InstallOpts {
    pub repo: Option<String>,
    /// Use an on-disk checkout instead of cloning; `repo`, `branch` and
    /// `rev` are then not used to fetch.
    pub path: Option<String>,
    pub branch: Option<String>,
    pub rev: Option<String>,
    pub subdir: Option<String>,
    pub extensions: Option<Vec<String>>,
    pub language: Option<String>,
    pub queries: Option<String>,
    pub force: bool,
}

impl Default for InstallOpts {
    fn default() -> (o: Self)
        ensures
            o.repo is None && o.path is None && o.branch is None && o.rev is None,
            o.subdir is None && o.extensions is None && o.language is None,
            o.queries is None && !o.force,
    {
        InstallOpts {
            repo: None,
            path: None,
            branch: None,
            rev: None,
            subdir: None,
            extensions: None,
            language: None,
            queries: None,
            force: false,
        }
    }
}

/// Why an install failed.
#[derive(Debug)]
pub enum InstallError {
    /// The name is not in the manifest and neither a repo nor a path was
    /// given.
    UnknownGrammar { name: String },
    /// The manifest could not be parsed.
    Manifest { path: String, detail: String },
    /// The source directory (checkout or build dir) does not exist.
    MissingSource { path: String },
    /// A tool (`git`, `tree-sitter`) could not be launched.
    ToolNotFound { tool: String, detail: String },
    /// A `git` step failed.
    Git { step: String, status: Option<i32>, stderr: String },
    /// `tree-sitter build` failed.
    Build { dir: String, status: Option<i32>, stderr: String },
    /// The highlights query is not where it was looked for.
    MissingHighlights { path: String },
    /// A filesystem operation failed.
    Io { path: String, detail: String },
}

/// The merge of the manifest entry and the per-call options.
#[derive(Debug)]
pub struct Resolved {
    pub repo: Option<String>,
    pub path: Option<String>,
    pub branch: Option<String>,
    pub rev: Option<String>,
    pub subdir: Option<String>,
    pub extensions: Vec<String>,
    pub language: String,
    pub queries: Option<String>,
}

/// A manifest field of the entry, when there is an entry.
pub open spec fn entry_field(
    entry: Option<GrammarSpec>,
    f: spec_fn(GrammarSpec) -> Option<String>,
) -> Option<Seq<char>> {
    match entry {
        Some(e) => opt_view(f(e)),
        None => None,
    }
}

/// The manifest entry for `name`, if any.
pub open spec fn entry_of(manifest: Manifest<GrammarSpec>, name: Seq<char>) -> Option<GrammarSpec> {
    if manifest@.0.contains_key(name) {
        Some(manifest@.0[name])
    } else {
        None
    }
}

/// The extensions a resolve settles on: the option's, else the entry's,
/// else none.
pub open spec fn resolved_extensions(opts: InstallOpts, entry: Option<GrammarSpec>) -> Seq<Seq<char>> {
    match opts.extensions {
        Some(x) => strings_view(x@),
        None => match entry {
            Some(e) => strings_view(e.extensions@),
            None => Seq::empty(),
        },
    }
}

/// The language a resolve settles on: the option's, else the entry's, else
/// the name.
pub open spec fn resolved_language(name: Seq<char>, opts: InstallOpts, entry: Option<GrammarSpec>) -> Seq<char> {
    match or_else(opt_view(opts.language), entry_field(entry, |e: GrammarSpec| e.language)) {
        Some(l) => l,
        None => name,
    }
}

/// Merge the manifest entry for `name` with `opts`: each option given
/// wins over the entry's field; the language defaults to the name and the
/// extensions to none. Without a repo from either side and without a path
/// the grammar is unknown.
pub fn resolve(name: &str, opts: &InstallOpts, manifest: &Manifest<GrammarSpec>) -> (r: Result<
    Resolved,
    InstallError,
>)
    requires
        manifest.wf(),
    ensures
        ({
            let entry = entry_of(*manifest, name@);
            let repo = or_else(opt_view(opts.repo), entry_field(entry, |e: GrammarSpec| Some(e.repo)));
            match r {
                Err(e) => repo is None && opts.path is None && (e matches InstallError::UnknownGrammar {
                    name: n,
                } && n@ == name@),
                Ok(res) => {
                    &&& !(repo is None && opts.path is None)
                    &&& opt_view(res.repo) == repo
                    &&& opt_view(res.path) == opt_view(opts.path)
                    &&& opt_view(res.branch) == or_else(
                        opt_view(opts.branch),
                        entry_field(entry, |e: GrammarSpec| e.branch),
                    )
                    &&& opt_view(res.rev) == or_else(
                        opt_view(opts.rev),
                        entry_field(entry, |e: GrammarSpec| e.rev),
                    )
                    &&& opt_view(res.subdir) == or_else(
                        opt_view(opts.subdir),
                        entry_field(entry, |e: GrammarSpec| e.subdir),
                    )
                    &&& strings_view(res.extensions@) == resolved_extensions(*opts, entry)
                    &&& res.language@ == resolved_language(name@, *opts, entry)
                    &&& opt_view(res.queries) == or_else(
                        opt_view(opts.queries),
                        entry_field(entry, |e: GrammarSpec| e.queries),
                    )
                },
            }
        }),
{
    let entry = manifest.get(name);
    let repo = match &opts.repo {
        Some(r) => Some(r.clone()),
        None => match entry {
            Some(e) => Some(e.repo.clone()),
            None => None,
        },
    };
    let path = clone_opt(&opts.path);
    if repo.is_none() && path.is_none() {
        return Err(InstallError::UnknownGrammar { name: name.to_owned() });
    }
    let branch = match &opts.branch {
        Some(b) => Some(b.clone()),
        None => match entry {
            Some(e) => clone_opt(&e.branch),
            None => None,
        },
    };
    let rev = match &opts.rev {
        Some(v) => Some(v.clone()),
        None => match entry {
            Some(e) => clone_opt(&e.rev),
            None => None,
        },
    };
    let subdir = match &opts.subdir {
        Some(s) => Some(s.clone()),
        None => match entry {
            Some(e) => clone_opt(&e.subdir),
            None => None,
        },
    };
    let extensions = match &opts.extensions {
        Some(x) => clone_strings(x),
        None => match entry {
            Some(e) => clone_strings(&e.extensions),
            None => {
                let v: Vec<String> = Vec::new();
                assert(strings_view(v@) =~= Seq::<Seq<char>>::empty());
                v
            },
        },
    };
    let language = match &opts.language {
        Some(l) => l.clone(),
        None => match entry {
            Some(e) => match &e.language {
                Some(l) => l.clone(),
                None => name.to_owned(),
            },
            None => name.to_owned(),
        },
    };
    let queries = match &opts.queries {
        Some(q) => Some(q.clone()),
        None => match entry {
            Some(e) => clone_opt(&e.queries),
            None => None,
        },
    };
    Ok(Resolved { repo, path, branch, rev, subdir, extensions, language, queries })
}

/// One stamp line, `<key><value>\n`, when the value is set.
pub open spec fn stamp_line(key: Seq<char>, v: Option<Seq<char>>) -> Seq<char> {
    match v {
        Some(x) => key + x + seq!['\n'],
        None => Seq::empty(),
    }
}

/// The stamp recorded next to a build: the repo, checkout path, revision
/// and built commit, one `key=value` line each, in that order, for those
/// that are set.
pub open spec fn spec_stamp(
    repo: Option<Seq<char>>,
    path: Option<Seq<char>>,
    rev: Option<Seq<char>>,
    sha: Option<Seq<char>>,
) -> Seq<char> {
    stamp_line("repo="@, repo) + stamp_line("path="@, path) + stamp_line("rev="@, rev)
        + stamp_line("sha="@, sha)
}

fn push_stamp_line(out: &mut String, key: &str, v: Option<&str>)
    ensures
        final(out)@ == old(out)@ + stamp_line(
            key@,
            match v {
                Some(x) => Some(x@),
                None => None,
            },
        ),
{
    match v {
        Some(x) => {
            out.append(key);
            out.append(x);
            crate::strs::string_push(out, '\n');
            assert(final(out)@ =~= old(out)@ + (key@ + x@ + seq!['\n']));
        },
        None => {
            assert(final(out)@ =~= old(out)@ + Seq::<char>::empty());
        },
    }
}

fn opt_as_str(o: &Option<String>) -> (r: Option<&str>)
    ensures
        match r {
            Some(x) => Some(x@),
            None => None::<Seq<char>>,
        } == opt_view(*o),
{
    match o {
        Some(s) => Some(s.as_str()),
        None => None,
    }
}

/// The stamp for `resolved` built at commit `head_sha` (none for a local
/// checkout).
pub fn stamp_for(resolved: &Resolved, head_sha: Option<&str>) -> (s: String)
    ensures
        s@ == spec_stamp(
            opt_view(resolved.repo),
            opt_view(resolved.path),
            opt_view(resolved.rev),
            match head_sha {
                Some(x) => Some(x@),
                None => None,
            },
        ),
{
    let mut out = String::new();
    push_stamp_line(&mut out, "repo=", opt_as_str(&resolved.repo));
    push_stamp_line(&mut out, "path=", opt_as_str(&resolved.path));
    push_stamp_line(&mut out, "rev=", opt_as_str(&resolved.rev));
    push_stamp_line(&mut out, "sha=", head_sha);
    proof {
        reveal_strlit("repo=");
        reveal_strlit("path=");
        reveal_strlit("rev=");
        reveal_strlit("sha=");
        assert(out@ =~= spec_stamp(
            opt_view(resolved.repo),
            opt_view(resolved.path),
            opt_view(resolved.rev),
            match head_sha {
                Some(x) => Some(x@),
                None => None,
            },
        ));
    }
    out
}

/// Where the grammar's source lives: the given checkout, or the managed
/// clone under the cache, together with whether that clone must be synced.
pub fn source_root(resolved: &Resolved, root: &str, name: &str) -> (r: (CachePath, bool))
    ensures
        match resolved.path {
            Some(p) => r.0@ == (p@, Seq::<Seq<char>>::empty()) && !r.1,
            None => r.0@ == (root@, seq![name@, "src"@]) && r.1,
        },
{
    match &resolved.path {
        Some(p) => (CachePath::new(p.as_str()), false),
        None => (crate::install::grammar::source_dir(root, name), true),
    }
}

/// Where `tree-sitter build` runs: the source root, or its `subdir`.
pub fn build_dir(source_root: CachePath, subdir: &Option<String>) -> (d: CachePath)
    ensures
        d@ == match subdir {
            Some(s) => (source_root@.0, source_root@.1.push(s@)),
            None => source_root@,
        },
{
    match subdir {
        Some(s) => source_root.join(s.as_str()),
        None => source_root,
    }
}

/// Where the highlights query is copied from: `queries` (default
/// `queries/highlights.scm`) taken as is when it is an absolute path, else
/// relative to the build dir.
pub fn queries_source(build_dir: CachePath, queries: &Option<String>, queries_is_absolute: bool) -> (q:
    CachePath)
    ensures
        ({
            let rel = match queries {
                Some(x) => x@,
                None => "queries/highlights.scm"@,
            };
            q@ == if queries_is_absolute {
                (rel, Seq::<Seq<char>>::empty())
            } else {
                (build_dir@.0, build_dir@.1.push(rel))
            }
        }),
{
    let rel: &str = match queries {
        Some(x) => x.as_str(),
        None => "queries/highlights.scm",
    };
    if queries_is_absolute {
        CachePath::new(rel)
    } else {
        build_dir.join(rel)
    }
}

/// What is on disk for a grammar: its library, its query, and the stamp of
/// the build that put them there, when the stamp file could be read.
#[derive(Debug)]
pub struct CachedGrammar {
    pub library: CachePath,
    pub highlights: CachePath,
    pub stamp: Option<String>,
}

impl CachedGrammar {
    /// The cached artefacts of `name` under `root` for target OS `os`, given
    /// whether the library and the query exist and the stamp's text: none
    /// when either file is missing (the last install was partial).
    pub fn from_probe(
        root: &str,
        name: &str,
        os: &str,
        library_exists: bool,
        highlights_exists: bool,
        stamp: Option<String>,
    ) -> (r: Option<CachedGrammar>)
        ensures
            match r {
                Some(c) => {
                    &&& library_exists && highlights_exists
                    &&& c.library@ == (root@, seq![name@, spec_library_filename(os@)])
                    &&& c.highlights@ == (root@, seq![name@, "highlights.scm"@])
                    &&& opt_view(c.stamp) == opt_view(stamp)
                },
                None => !(library_exists && highlights_exists),
            },
    {
        if !library_exists || !highlights_exists {
            return None;
        }
        Some(CachedGrammar {
            library: library_path(root, name, os),
            highlights: highlights_path(root, name),
            stamp,
        })
    }
}

/// Whether the cached build can be used as is: not forced, present, and
/// stamped with exactly `want_stamp`.
pub fn cache_hit(force: bool, cached: &Option<CachedGrammar>, want_stamp: &str) -> (b: bool)
    ensures
        b == (!force && match cached {
            Some(c) => opt_view(c.stamp) == Some(want_stamp@),
            None => false,
        }),
{
    if force {
        return false;
    }
    match cached {
        Some(c) => match &c.stamp {
            Some(st) => str_eq(st.as_str(), want_stamp),
            None => false,
        },
        None => false,
    }
}

/// A successful install: what to hand the grammar registry.
#[derive(Debug)]
pub struct InstalledGrammar {
    pub name: String,
    pub language: String,
    pub extensions: Vec<String>,
    pub library: CachePath,
    pub highlights: CachePath,
}

/// The install result for `name` resolved as `resolved`, with its library
/// and query at the given places.
pub fn installed(name: &str, resolved: Resolved, library: CachePath, highlights: CachePath) -> (g:
    InstalledGrammar)
    ensures
        g.name@ == name@,
        g.language@ == resolved.language@,
        g.extensions@ == resolved.extensions@,
        g.library@ == library@,
        g.highlights@ == highlights@,
{
    InstalledGrammar {
        name: name.to_owned(),
        language: resolved.language,
        extensions: resolved.extensions,
        library,
        highlights,
    }
}

/// The cache lookup on buffer open: the grammar resolves and its artefacts
/// are on disk (`cached`, as [`CachedGrammar::from_probe`] found them).
pub fn try_load_cached(
    name: &str,
    opts: &InstallOpts,
    manifest: &Manifest<GrammarSpec>,
    cached: Option<CachedGrammar>,
) -> (r: Option<InstalledGrammar>)
    requires
        manifest.wf(),
    ensures
        r is Some <==> (cached is Some && (opts.repo is Some || opts.path is Some
            || manifest@.0.contains_key(name@))),
        r matches Some(g) ==> {
            &&& g.name@ == name@
            &&& g.language@ == resolved_language(name@, *opts, entry_of(*manifest, name@))
            &&& strings_view(g.extensions@) == resolved_extensions(*opts, entry_of(*manifest, name@))
            &&& (cached matches Some(c) && g.library@ == c.library@ && g.highlights@
                == c.highlights@)
        },
{
    match resolve(name, opts, manifest) {
        Ok(resolved) => match cached {
            Some(c) => Some(installed(name, resolved, c.library, c.highlights)),
            None => None,
        },
        Err(_) => None,
    }
}

} // verus!

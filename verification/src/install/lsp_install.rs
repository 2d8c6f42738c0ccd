//! What an LSP server install decides: the manifest entry merged with
//! per-call options, the stamp that says whether a cached binary was built
//! from the current recipe, and the answers to give from `$PATH` or the
//! cache. Looking the command up on `$PATH`, running the recipe and
//! touching files are left to the caller, which runs these decisions in
//! order:
//!
//! 1. [`resolve`] the spec (an unknown name without a command fails);
//! 2. unless forced, use the command found on `$PATH`;
//! 3. unless forced, use the cached binary when [`cache_current`] says its
//!    stamp matches [`stamp_for`];
//! 4. else run the [`recipe_of`] the spec, check the binary appeared, and
//!    write the stamp.

use vstd::prelude::*;
use vstd::utf8::encode_utf8;

use sha2::Digest;

use crate::install::grammar_install::{clone_opt, clone_strings, opt_view, or_else, strings_view};
use crate::install::layout::CachePath;
use crate::install::lsp::binary_path;
use crate::install::manifest::{Manifest, Spec};
use crate::strs::{spec_trim, trimmed_eq};

verus! {

#[verifier::external_type_specification]
#[verifier::external_body]
pub struct ExTomlValue(toml::Value);

/// `toml::Value::clone`: the derived clone, an equal value.
#[verifier::external_body]
fn clone_toml_value(v: &toml::Value) -> (r: toml::Value)
    ensures
        r == *v,
{
    v.clone()
}

/// One row of the LSP manifest. `command` is the only field a row must
/// give.
#[derive(Debug)]
pub struct ServerSpec {
    pub command: String,
    pub args: Vec<String>,
    /// Extensions (without leading dot) that pick this server when a buffer
    /// is opened.
    pub extensions: Vec<String>,
    /// File names whose presence (walking upward from the buffer's path)
    /// marks the workspace root.
    pub root_markers: Vec<String>,
    /// Passed verbatim as the `initialize` request's
    /// `initializationOptions`.
    pub initialization_options: Option<toml::Value>,
    /// Shell recipe run inside the server's cache dir when the binary is
    /// missing from `$PATH`.
    pub install: Option<String>,
    /// Extra environment variables for the spawned server, one entry per
    /// variable as the manifest table gives them.
    pub env: Vec<(String, String)>,
}

impl Spec for ServerSpec {
    open spec fn spec_extensions(&self) -> Seq<Seq<char>> {
        self.extensions@.map_values(|s: String| s@)
    }

    fn extensions(&self) -> (r: &[String]) {
        self.extensions.as_slice()
    }
}

/// The environment entries as text pairs.
pub open spec fn env_view(env: Seq<(String, String)>) -> Seq<(Seq<char>, Seq<char>)> {
    env.map_values(|e: (String, String)| (e.0@, e.1@))
}

impl Default for ServerSpec {
    fn default() -> (s: Self)
        ensures
            s.command@ == Seq::<char>::empty(),
            s.args@.len() == 0,
            s.extensions@.len() == 0,
            s.root_markers@.len() == 0,
            s.initialization_options is None,
            s.install is None,
            s.env@.len() == 0,
    {
        ServerSpec {
            command: String::new(),
            args: Vec::new(),
            extensions: Vec::new(),
            root_markers: Vec::new(),
            initialization_options: None,
            install: None,
            env: Vec::new(),
        }
    }
}

fn clone_env(env: &Vec<(String, String)>) -> (r: Vec<(String, String)>)
    ensures
        env_view(r@) == env_view(env@),
{
    let mut r: Vec<(String, String)> = Vec::new();
    let mut i: usize = 0;
    while i < env.len()
        invariant
            i <= env@.len(),
            r@ == env@.take(i as int),
        decreases env@.len() - i,
    {
        r.push((env[i].0.clone(), env[i].1.clone()));
        i = i + 1;
        assert(r@ =~= env@.take(i as int));
    }
    assert(env@.take(i as int) =~= env@);
    r
}

/// Two specs with the same contents.
pub open spec fn same_spec(a: ServerSpec, b: ServerSpec) -> bool {
    &&& a.command@ == b.command@
    &&& strings_view(a.args@) == strings_view(b.args@)
    &&& strings_view(a.extensions@) == strings_view(b.extensions@)
    &&& strings_view(a.root_markers@) == strings_view(b.root_markers@)
    &&& a.initialization_options == b.initialization_options
    &&& opt_view(a.install) == opt_view(b.install)
    &&& env_view(a.env@) == env_view(b.env@)
}

/// A copy of `s`.
pub fn clone_spec(s: &ServerSpec) -> (r: ServerSpec)
    ensures
        same_spec(r, *s),
{
    ServerSpec {
        command: s.command.clone(),
        args: clone_strings(&s.args),
        extensions: clone_strings(&s.extensions),
        root_markers: clone_strings(&s.root_markers),
        initialization_options: match &s.initialization_options {
            Some(v) => Some(clone_toml_value(v)),
            None => None,
        },
        install: clone_opt(&s.install),
        env: clone_env(&s.env),
    }
}

/// Per-call overrides layered on top of the manifest entry. Everything is
/// optional; a bare install of a name uses [`InstallOpts::default`].
#[derive(Debug)]
pub struct InstallOpts {
    pub force: bool,
    pub command: Option<String>,
    pub args: Option<Vec<String>>,
    pub install: Option<String>,
}

impl Default for InstallOpts {
    fn default() -> (o: Self)
        ensures
            !o.force && o.command is None && o.args is None && o.install is None,
    {
        InstallOpts { force: false, command: None, args: None, install: None }
    }
}

/// Why resolving or installing a server failed.
#[derive(Debug)]
pub enum InstallError {
    /// The name is not in the manifest and no command was given.
    UnknownServer { name: String },
    /// The manifest could not be parsed.
    Manifest { path: String, detail: String },
    /// The command is not on `$PATH` and the spec has no install recipe.
    NotOnPathAndNoRecipe { name: String, command: String },
    /// The install recipe failed.
    Recipe { name: String, status: Option<i32>, stderr: String },
    /// The recipe ran but the binary is not where it must be.
    RecipeMissingOutput { name: String, expected: CachePath },
    /// A filesystem operation failed.
    Io { path: String, detail: String },
}

/// Merge the manifest entry for `name` (an empty spec when there is none)
/// with `opts`: a given command, args or recipe replaces the entry's.
/// Without a command from either side the server is unknown.
pub fn resolve(name: &str, opts: &InstallOpts, manifest: &Manifest<ServerSpec>) -> (r: Result<
    ServerSpec,
    InstallError,
>)
    requires
        manifest.wf(),
    ensures
        ({
            let present = manifest@.0.contains_key(name@);
            let e = manifest@.0[name@];
            let base_command = if present {
                e.command@
            } else {
                Seq::<char>::empty()
            };
            match r {
                Err(err) => base_command.len() == 0 && opts.command is None && (
                err matches InstallError::UnknownServer { name: n } && n@ == name@),
                Ok(s) => {
                    &&& !(base_command.len() == 0 && opts.command is None)
                    &&& s.command@ == match opts.command {
                        Some(c) => c@,
                        None => base_command,
                    }
                    &&& strings_view(s.args@) == match opts.args {
                        Some(a) => strings_view(a@),
                        None => if present {
                            strings_view(e.args@)
                        } else {
                            Seq::empty()
                        },
                    }
                    &&& opt_view(s.install) == or_else(
                        opt_view(opts.install),
                        if present {
                            opt_view(e.install)
                        } else {
                            None
                        },
                    )
                    &&& present ==> {
                        &&& strings_view(s.extensions@) == strings_view(e.extensions@)
                        &&& strings_view(s.root_markers@) == strings_view(e.root_markers@)
                        &&& s.initialization_options == e.initialization_options
                        &&& env_view(s.env@) == env_view(e.env@)
                    }
                    &&& !present ==> {
                        &&& s.extensions@.len() == 0
                        &&& s.root_markers@.len() == 0
                        &&& s.initialization_options is None
                        &&& s.env@.len() == 0
                    }
                },
            }
        }),
{
    let mut spec = match manifest.get(name) {
        Some(e) => clone_spec(e),
        None => ServerSpec::default(),
    };
    if spec.command.unicode_len() == 0 {
        match &opts.command {
            Some(cmd) => {
                spec.command = cmd.clone();
            },
            None => {
                return Err(InstallError::UnknownServer { name: name.to_owned() });
            },
        }
    }
    if let Some(cmd) = &opts.command {
        spec.command = cmd.clone();
    }
    if let Some(args) = &opts.args {
        spec.args = clone_strings(args);
    }
    if let Some(install) = &opts.install {
        spec.install = Some(install.clone());
    }
    Ok(spec)
}

/// The SHA-256 digest of `data`.
pub uninterp spec fn sha256_digest(data: Seq<u8>) -> Seq<u8>;

/// `Sha256::digest`: the 32-byte SHA-256 digest of `data`.
#[verifier::external_body]
fn sha256(data: &[u8]) -> (d: Vec<u8>)
    ensures
        d@ == sha256_digest(data@),
        d@.len() == 32,
{
    sha2::Sha256::digest(data).to_vec()
}

/// A lower-case hex digit.
pub open spec fn hex_digit(n: int) -> char {
    if n < 10 {
        (48 + n) as char
    } else {
        (87 + n) as char
    }
}

/// Bytes as lower-case hex, two digits each (`{:x}` of a digest).
pub open spec fn spec_hex(bytes: Seq<u8>) -> Seq<char>
    decreases bytes.len(),
{
    if bytes.len() == 0 {
        Seq::empty()
    } else {
        spec_hex(bytes.drop_last()) + seq![
            hex_digit(bytes.last() as int / 16),
            hex_digit(bytes.last() as int % 16),
        ]
    }
}

fn hex_char(n: u8) -> (c: char)
    requires
        n < 16,
    ensures
        c == hex_digit(n as int),
{
    if n < 10 {
        (48u8 + n) as char
    } else {
        (87u8 + n) as char
    }
}

fn to_hex(bytes: &Vec<u8>) -> (s: String)
    ensures
        s@ == spec_hex(bytes@),
{
    let mut s = String::new();
    let mut i: usize = 0;
    while i < bytes.len()
        invariant
            i <= bytes@.len(),
            s@ == spec_hex(bytes@.take(i as int)),
        decreases bytes@.len() - i,
    {
        let b = bytes[i];
        crate::strs::string_push(&mut s, hex_char(b / 16));
        crate::strs::string_push(&mut s, hex_char(b % 16));
        proof {
            let t = bytes@.take(i + 1);
            assert(t.drop_last() =~= bytes@.take(i as int));
            assert(t.last() == b);
        }
        i = i + 1;
    }
    assert(bytes@.take(i as int) =~= bytes@);
    s
}

/// What the stamp hashes: the command and the recipe, labelled.
pub open spec fn stamp_input(command: Seq<char>, recipe: Seq<char>) -> Seq<u8> {
    encode_utf8("command="@) + encode_utf8(command) + encode_utf8("\nrecipe="@) + encode_utf8(
        recipe,
    )
}

fn append_bytes(out: &mut Vec<u8>, b: &[u8])
    ensures
        final(out)@ == old(out)@ + b@,
{
    let mut i: usize = 0;
    let ghost start = out@;
    while i < b.len()
        invariant
            i <= b@.len(),
            out@ == start + b@.take(i as int),
        decreases b@.len() - i,
    {
        out.push(b[i]);
        i = i + 1;
        assert(out@ =~= start + b@.take(i as int));
    }
    assert(b@.take(i as int) =~= b@);
}

/// The stamp of a spec: the hex SHA-256 of its command and recipe (an
/// absent recipe hashing as empty), so an edited recipe forces a rebuild.
pub fn stamp_for(spec: &ServerSpec) -> (s: String)
    ensures
        s@ == spec_hex(
            sha256_digest(
                stamp_input(
                    spec.command@,
                    match spec.install {
                        Some(r) => r@,
                        None => Seq::empty(),
                    },
                ),
            ),
        ),
{
    let recipe: &str = match &spec.install {
        Some(r) => r.as_str(),
        None => "",
    };
    proof {
        reveal_strlit("");
        assert(recipe@ == match spec.install {
            Some(r) => r@,
            None => Seq::<char>::empty(),
        });
    }
    let mut input: Vec<u8> = Vec::new();
    append_bytes(&mut input, "command=".as_bytes());
    append_bytes(&mut input, spec.command.as_str().as_bytes());
    append_bytes(&mut input, "\nrecipe=".as_bytes());
    append_bytes(&mut input, recipe.as_bytes());
    proof {
        assert(input@ =~= stamp_input(spec.command@, recipe@));
    }
    let digest = sha256(input.as_slice());
    to_hex(&digest)
}

/// Whether the cached binary was built from the current spec: not forced,
/// present, and the stored stamp, trimmed, is `want_stamp`.
pub fn cache_current(force: bool, binary_exists: bool, stored_stamp: Option<&str>, want_stamp: &str) -> (b:
    bool)
    ensures
        b == (!force && binary_exists && match stored_stamp {
            Some(t) => spec_trim(t@) == want_stamp@,
            None => false,
        }),
{
    if force || !binary_exists {
        return false;
    }
    match stored_stamp {
        Some(t) => trimmed_eq(t, want_stamp),
        None => false,
    }
}

/// A resolved server: its binary and the spec to start it with.
#[derive(Debug)]
pub struct InstalledServer {
    pub name: String,
    pub binary: CachePath,
    pub spec: ServerSpec,
}

/// What an install does next, once the spec is resolved and `$PATH` and
/// the cache have been looked at.
#[derive(Debug)]
pub enum InstallPlan {
    /// The server is usable as is.
    Ready(InstalledServer),
    /// Run `recipe` in the server's cache dir; it must produce `binary`,
    /// after which `want_stamp` is written to `stamp`.
    RunRecipe { recipe: String, binary: CachePath, stamp: CachePath, want_stamp: String },
}

/// Decide an install of `name` resolved as `spec`, given where (if
/// anywhere) its command is on `$PATH`, whether the cached binary exists,
/// and the stamp stored beside it: unless forced, `$PATH` wins, then a
/// current cache; otherwise the recipe runs, and without one the install
/// fails.
pub fn plan_install(
    name: &str,
    force: bool,
    spec: ServerSpec,
    root: &str,
    on_path: Option<String>,
    binary_exists: bool,
    stored_stamp: Option<&str>,
) -> (r: Result<InstallPlan, InstallError>)
    ensures
        ({
            let want = spec_hex(
                sha256_digest(
                    stamp_input(
                        spec.command@,
                        match spec.install {
                            Some(x) => x@,
                            None => Seq::empty(),
                        },
                    ),
                ),
            );
            let cached = (root@, seq![name@, "bin"@, spec.command@]);
            let current = binary_exists && match stored_stamp {
                Some(t) => spec_trim(t@) == want,
                None => false,
            };
            match r {
                Ok(InstallPlan::Ready(s)) => {
                    &&& s.name@ == name@
                    &&& same_spec(s.spec, spec)
                    &&& !force
                    &&& match on_path {
                        Some(p) => s.binary@ == (p@, Seq::<Seq<char>>::empty()),
                        None => current && s.binary@ == cached,
                    }
                },
                Ok(InstallPlan::RunRecipe { recipe, binary, stamp, want_stamp }) => {
                    &&& (force || (on_path is None && !current))
                    &&& spec.install == Some(recipe)
                    &&& binary@ == cached
                    &&& stamp@ == (root@, seq![name@, ".stamp"@])
                    &&& want_stamp@ == want
                },
                Err(e) => {
                    &&& (force || (on_path is None && !current))
                    &&& spec.install is None
                    &&& e matches InstallError::NotOnPathAndNoRecipe { name: n, command: c }
                    &&& n@ == name@ && c@ == spec.command@
                },
            }
        }),
{
    if !force {
        if let Some(p) = on_path {
            return Ok(InstallPlan::Ready(InstalledServer {
                name: name.to_owned(),
                binary: CachePath::new(p.as_str()),
                spec,
            }));
        }
    }
    let binary = binary_path(root, name, spec.command.as_str());
    let stamp = crate::install::lsp::stamp_path(root, name);
    let want_stamp = stamp_for(&spec);
    if cache_current(force, binary_exists, stored_stamp, want_stamp.as_str()) {
        return Ok(InstallPlan::Ready(InstalledServer { name: name.to_owned(), binary, spec }));
    }
    match &spec.install {
        Some(recipe) => Ok(InstallPlan::RunRecipe { recipe: recipe.clone(), binary, stamp, want_stamp }),
        None => Err(
            InstallError::NotOnPathAndNoRecipe { name: name.to_owned(), command: spec.command.clone() },
        ),
    }
}

/// After the recipe ran: it must have succeeded and produced the binary.
pub fn finish_install(
    name: &str,
    spec: ServerSpec,
    binary: CachePath,
    recipe_ok: bool,
    status: Option<i32>,
    stderr: String,
    binary_exists: bool,
) -> (r: Result<InstalledServer, InstallError>)
    ensures
        match r {
            Ok(s) => recipe_ok && binary_exists && s.name@ == name@ && s.binary@ == binary@
                && same_spec(s.spec, spec),
            Err(InstallError::Recipe { name: n, status: st, stderr: e }) => !recipe_ok && n@ == name@
                && st == status && e@ == stderr@,
            Err(InstallError::RecipeMissingOutput { name: n, expected }) => recipe_ok
                && !binary_exists && n@ == name@ && expected@ == binary@,
            Err(_) => false,
        },
{
    if !recipe_ok {
        return Err(InstallError::Recipe { name: name.to_owned(), status, stderr });
    }
    if !binary_exists {
        return Err(InstallError::RecipeMissingOutput { name: name.to_owned(), expected: binary });
    }
    Ok(InstalledServer { name: name.to_owned(), binary, spec })
}

/// The cache lookup on buffer open, for the manifest entry of `name`:
/// given where its command is on `$PATH` and whether its cached binary
/// exists, the server from `$PATH`, else the cached binary (a stale stamp
/// does not discard it), else nothing.
pub fn try_load_cached(
    name: &str,
    manifest: &Manifest<ServerSpec>,
    root: &str,
    on_path: Option<String>,
    cached_binary_exists: bool,
) -> (r: Option<InstalledServer>)
    requires
        manifest.wf(),
    ensures
        r is Some <==> (manifest@.0.contains_key(name@) && (on_path is Some || cached_binary_exists)),
        r matches Some(s) ==> {
            &&& s.name@ == name@
            &&& same_spec(s.spec, manifest@.0[name@])
            &&& s.binary@ == match on_path {
                Some(p) => (p@, Seq::<Seq<char>>::empty()),
                None => (root@, seq![name@, "bin"@, manifest@.0[name@].command@]),
            }
        },
{
    let spec = match manifest.get(name) {
        Some(e) => clone_spec(e),
        None => {
            return None;
        },
    };
    if let Some(p) = on_path {
        return Some(InstalledServer { name: name.to_owned(), binary: CachePath::new(p.as_str()), spec });
    }
    if !cached_binary_exists {
        return None;
    }
    let binary = binary_path(root, name, spec.command.as_str());
    Some(InstalledServer { name: name.to_owned(), binary, spec })
}

/// The language id a document is opened under: the server's first listed
/// extension, else the file's own extension.
pub fn language_id(spec: &ServerSpec, ext: &str) -> (id: String)
    ensures
        id@ == if spec.extensions@.len() > 0 {
            spec.extensions@[0]@
        } else {
            ext@
        },
{
    if spec.extensions.len() > 0 {
        spec.extensions[0].clone()
    } else {
        ext.to_owned()
    }
}

/// The notice when the server `name` could not be started.
pub fn start_failed_notice(name: &str, error: &str) -> (n: String)
    ensures
        n@ == "lsp `"@ + name@ + "` failed to start: "@ + error@,
{
    let mut n = "lsp `".to_owned();
    n.append(name);
    n.append("` failed to start: ");
    n.append(error);
    n
}

} // verus!

use rizzler::install::grammar_install::{
    self, cache_hit, installed, queries_source, stamp_for, CachedGrammar, GrammarSpec, InstallError,
    InstallOpts, Resolved,
};
use rizzler::install::layout::CachePath;
use rizzler::install::lsp_install::{
    self, cache_current, finish_install, plan_install, InstallPlan, ServerSpec,
};
use rizzler::install::manifest::{
    normalize_ext, BackendKind, LanguageBackend, Manifest, MissingBackend, Spec,
};

fn grammar(repo: &str, exts: &[&str]) -> GrammarSpec {
    GrammarSpec {
        repo: repo.to_string(),
        branch: None,
        rev: None,
        subdir: None,
        extensions: exts.iter().map(|e| e.to_string()).collect(),
        language: None,
        queries: None,
    }
}

fn rust_manifest() -> Manifest<GrammarSpec> {
    Manifest::from_entries(vec![("rust".to_string(), grammar("https://example/rust", &["rs"]))])
}

fn parts(p: &CachePath) -> Vec<&str> {
    p.parts.iter().map(|s| s.as_str()).collect()
}

#[test]
fn parses_and_indexes_extensions() {
    let m: Manifest<GrammarSpec> = Manifest::from_entries(vec![
        ("rust".to_string(), grammar("", &["rs"])),
        ("typescript".to_string(), grammar("", &["ts", "TSX"])),
    ]);
    assert_eq!(m.len(), 2);
    assert_eq!(m.lookup_by_ext("rs"), Some("rust"));
    assert_eq!(m.lookup_by_ext(".RS"), Some("rust"));
    assert_eq!(m.lookup_by_ext("tsx"), Some("typescript"));
    assert_eq!(m.lookup_by_ext("nope"), None);
}

#[test]
fn empty_manifest_parses() {
    let m: Manifest<GrammarSpec> = Manifest::from_entries(Vec::new());
    assert!(m.is_empty());
}

#[test]
fn insert_updates_ext_index() {
    let mut m: Manifest<GrammarSpec> = Manifest::default();
    m.insert("py".to_string(), grammar("", &["py"]));
    assert_eq!(m.lookup_by_ext("py"), Some("py"));
}

#[test]
fn first_warn_returns_true_once() {
    let mut b: LanguageBackend<GrammarSpec> = LanguageBackend::new(Manifest::default());
    assert!(b.first_warn("rust"));
    assert!(!b.first_warn("rust"));
    b.forget("rust");
    assert!(b.first_warn("rust"));
}

#[test]
fn mark_failed_round_trip() {
    let mut b: LanguageBackend<GrammarSpec> = LanguageBackend::new(Manifest::default());
    assert!(!b.already_failed("rust"));
    b.mark_failed("rust");
    assert!(b.already_failed("rust"));
    b.forget("rust");
    assert!(!b.already_failed("rust"));
}

#[test]
fn backend_starts_with_auto_install_on() {
    let b: LanguageBackend<GrammarSpec> = LanguageBackend::new(Manifest::default());
    assert!(b.auto_install);
    assert!(b.manifest.is_empty());
}

#[test]
fn normalize_ext_strips_dots_and_lowercases() {
    assert_eq!(normalize_ext("..Rs"), "rs");
    assert_eq!(normalize_ext("TSX"), "tsx");
    assert_eq!(normalize_ext("a.B"), "a.b");
    assert_eq!(normalize_ext(""), "");
    assert_eq!(normalize_ext(&normalize_ext(".MD")), normalize_ext(".MD"));
}

#[test]
fn first_claim_on_extension_wins() {
    let mut m = rust_manifest();
    m.insert("other".to_string(), grammar("", &["RS", "oth"]));
    assert_eq!(m.lookup_by_ext("rs"), Some("rust"));
    assert_eq!(m.lookup_by_ext("oth"), Some("other"));
    // Replacing an entry keeps one entry per name.
    m.insert("rust".to_string(), grammar("https://fork/rust", &["rs"]));
    assert_eq!(m.len(), 2);
    assert_eq!(m.get("rust").unwrap().repo, "https://fork/rust");
    assert!(m.get("python").is_none());
    let mut names: Vec<&str> = m.iter().iter().map(|(n, _)| *n).collect();
    names.sort();
    assert_eq!(names, vec!["other", "rust"]);
}

#[test]
fn grammar_spec_lists_its_extensions() {
    let g = grammar("r", &["a", "b"]);
    assert_eq!(g.extensions(), &["a".to_string(), "b".to_string()][..]);
}

#[test]
fn resolve_falls_back_to_manifest() {
    let m = rust_manifest();
    let r = grammar_install::resolve("rust", &InstallOpts::default(), &m).unwrap();
    assert_eq!(r.repo.as_deref(), Some("https://example/rust"));
    assert_eq!(r.language, "rust");
    assert_eq!(r.extensions, vec!["rs".to_string()]);
}

#[test]
fn resolve_opts_override_manifest() {
    let m = rust_manifest();
    let opts = InstallOpts {
        repo: Some("https://fork/rust".into()),
        extensions: Some(vec!["rs".into(), "rust".into()]),
        ..Default::default()
    };
    let r = grammar_install::resolve("rust", &opts, &m).unwrap();
    assert_eq!(r.repo.as_deref(), Some("https://fork/rust"));
    assert_eq!(r.extensions, vec!["rs".to_string(), "rust".to_string()]);
}

#[test]
fn resolve_unknown_without_repo_errors() {
    let m: Manifest<GrammarSpec> = Manifest::from_entries(Vec::new());
    let err = grammar_install::resolve("nope", &InstallOpts::default(), &m).unwrap_err();
    assert!(matches!(err, InstallError::UnknownGrammar { .. }));
}

#[test]
fn resolve_unknown_with_path_succeeds() {
    let m: Manifest<GrammarSpec> = Manifest::from_entries(Vec::new());
    let opts = InstallOpts {
        path: Some("/tmp/foo".to_string()),
        extensions: Some(vec!["foo".into()]),
        ..Default::default()
    };
    let r = grammar_install::resolve("foo", &opts, &m).unwrap();
    assert!(r.path.is_some());
    assert_eq!(r.language, "foo");
}

#[test]
fn resolve_takes_entry_language_and_queries() {
    let mut spec = grammar("https://example/ts", &["ts"]);
    spec.language = Some("typescript".to_string());
    spec.queries = Some("q/h.scm".to_string());
    let m = Manifest::from_entries(vec![("ts".to_string(), spec)]);
    let r = grammar_install::resolve("ts", &InstallOpts::default(), &m).unwrap();
    assert_eq!(r.language, "typescript");
    assert_eq!(r.queries.as_deref(), Some("q/h.scm"));
    assert_eq!(r.branch, None);
}

fn resolved(repo: Option<&str>, path: Option<&str>, rev: Option<&str>) -> Resolved {
    Resolved {
        repo: repo.map(str::to_string),
        path: path.map(str::to_string),
        branch: None,
        rev: rev.map(str::to_string),
        subdir: None,
        extensions: vec![],
        language: "rust".to_string(),
        queries: None,
    }
}

#[test]
fn grammar_stamp_lists_set_fields_in_order() {
    let r = resolved(Some("https://x"), None, Some("v1"));
    assert_eq!(stamp_for(&r, Some("abc")), "repo=https://x\nrev=v1\nsha=abc\n");
    let r = resolved(None, Some("/src/g"), None);
    assert_eq!(stamp_for(&r, None), "path=/src/g\n");
}

#[test]
fn cached_grammar_needs_both_files() {
    assert!(CachedGrammar::from_probe("/c", "rust", "linux", true, false, None).is_none());
    assert!(CachedGrammar::from_probe("/c", "rust", "linux", false, true, None).is_none());
    let c = CachedGrammar::from_probe("/c", "rust", "macos", true, true, Some("s".into())).unwrap();
    assert_eq!(c.library.root, "/c");
    assert_eq!(parts(&c.library), vec!["rust", "parser.dylib"]);
    assert_eq!(parts(&c.highlights), vec!["rust", "highlights.scm"]);
    assert!(cache_hit(false, &Some(c), "s"));
}

#[test]
fn cache_hit_needs_matching_stamp_and_no_force() {
    let probe = |stamp: Option<&str>| {
        CachedGrammar::from_probe("/c", "g", "linux", true, true, stamp.map(str::to_string))
    };
    assert!(!cache_hit(true, &probe(Some("s")), "s"));
    assert!(!cache_hit(false, &probe(Some("t")), "s"));
    assert!(!cache_hit(false, &probe(None), "s"));
    assert!(!cache_hit(false, &None, "s"));
}

#[test]
fn queries_default_to_build_dir_relative_path() {
    let b = CachePath::new("/src").join("sub");
    let q = queries_source(b, &None, false);
    assert_eq!(q.root, "/src");
    assert_eq!(parts(&q), vec!["sub", "queries/highlights.scm"]);
    let q = queries_source(CachePath::new("/src"), &Some("/abs/h.scm".to_string()), true);
    assert_eq!(q.root, "/abs/h.scm");
    assert!(q.parts.is_empty());
}

#[test]
fn installed_carries_resolved_language() {
    let g = installed("rust", resolved(Some("r"), None, None), CachePath::new("/l"), CachePath::new("/h"));
    assert_eq!(g.name, "rust");
    assert_eq!(g.language, "rust");
    assert_eq!(g.library.root, "/l");
}

#[test]
fn try_load_cached_grammar_needs_resolution_and_cache() {
    let m = rust_manifest();
    let cached = || CachedGrammar::from_probe("/c", "rust", "linux", true, true, None);
    let g = grammar_install::try_load_cached("rust", &InstallOpts::default(), &m, cached()).unwrap();
    assert_eq!(g.extensions, vec!["rs".to_string()]);
    assert!(grammar_install::try_load_cached("zig", &InstallOpts::default(), &m, cached()).is_none());
    assert!(grammar_install::try_load_cached("rust", &InstallOpts::default(), &m, None).is_none());
}

fn server(command: &str, install: Option<&str>) -> ServerSpec {
    ServerSpec { command: command.to_string(), install: install.map(str::to_string), ..Default::default() }
}

#[test]
fn unknown_server_when_not_in_manifest_and_no_command_opt() {
    let m: Manifest<ServerSpec> = Manifest::default();
    let err = lsp_install::resolve("nope", &lsp_install::InstallOpts::default(), &m).unwrap_err();
    assert!(matches!(err, lsp_install::InstallError::UnknownServer { .. }));
}

#[test]
fn opts_command_override_lets_unknown_name_resolve_to_path() {
    // `sh` is reliably on PATH on macOS/Linux; the caller found it at /bin/sh.
    let m: Manifest<ServerSpec> = Manifest::default();
    let opts = lsp_install::InstallOpts { command: Some("sh".into()), ..Default::default() };
    let spec = lsp_install::resolve("adhoc", &opts, &m).unwrap();
    let plan = plan_install("adhoc", opts.force, spec, "/c", Some("/bin/sh".into()), false, None);
    let installed = match plan.unwrap() {
        InstallPlan::Ready(s) => s,
        other => panic!("unexpected plan {other:?}"),
    };
    assert_eq!(installed.name, "adhoc");
    assert_eq!(installed.binary.root, "/bin/sh");
}

#[test]
fn server_resolve_layers_opts_over_entry() {
    let mut entry = server("ra", Some("make"));
    entry.args = vec!["--x".to_string()];
    let m = Manifest::from_entries(vec![("rust-analyzer".to_string(), entry)]);
    let opts = lsp_install::InstallOpts { args: Some(vec!["--y".into()]), ..Default::default() };
    let s = lsp_install::resolve("rust-analyzer", &opts, &m).unwrap();
    assert_eq!(s.command, "ra");
    assert_eq!(s.args, vec!["--y".to_string()]);
    assert_eq!(s.install.as_deref(), Some("make"));
}

#[test]
fn server_stamp_is_sha256_hex_of_command_and_recipe() {
    // sha256("command=ra\nrecipe=make")
    let s = lsp_install::stamp_for(&server("ra", Some("make")));
    assert_eq!(s, "ba8df6ef97440ebf4b2b35aa6464b3b8255f85d33437c8a33da717c79178e410");
    assert!(s.chars().all(|c| c.is_ascii_hexdigit() && !c.is_ascii_uppercase()));
    assert_ne!(s, lsp_install::stamp_for(&server("ra", Some("make2"))));
    assert_eq!(s, lsp_install::stamp_for(&server("ra", Some("make"))));
    // sha256("command=\nrecipe=") of the empty spec.
    assert_eq!(
        lsp_install::stamp_for(&server("", None)),
        "48dfaebd1286a0e81116c98f78ddbb8b95f33c885f03e3a38a2291817aebe932"
    );
}

#[test]
fn cache_current_trims_stored_stamp() {
    assert!(cache_current(false, true, Some(" abc\n"), "abc"));
    assert!(!cache_current(true, true, Some("abc"), "abc"));
    assert!(!cache_current(false, false, Some("abc"), "abc"));
    assert!(!cache_current(false, true, None, "abc"));
    assert!(!cache_current(false, true, Some("abd"), "abc"));
}

#[test]
fn plan_runs_recipe_or_fails_without_one() {
    let plan = plan_install("s", false, server("srv", Some("make")), "/c", None, false, None).unwrap();
    match plan {
        InstallPlan::RunRecipe { recipe, binary, stamp, want_stamp } => {
            assert_eq!(recipe, "make");
            assert_eq!(parts(&binary), vec!["s", "bin", "srv"]);
            assert_eq!(parts(&stamp), vec!["s", ".stamp"]);
            assert_eq!(want_stamp, lsp_install::stamp_for(&server("srv", Some("make"))));
        }
        other => panic!("unexpected plan {other:?}"),
    }
    let err = plan_install("s", false, server("srv", None), "/c", None, false, None).unwrap_err();
    assert!(matches!(err, lsp_install::InstallError::NotOnPathAndNoRecipe { .. }));
}

#[test]
fn plan_uses_current_cache() {
    let want = lsp_install::stamp_for(&server("srv", Some("make")));
    let plan =
        plan_install("s", false, server("srv", Some("make")), "/c", None, true, Some(&want)).unwrap();
    assert!(matches!(plan, InstallPlan::Ready(_)));
    let plan =
        plan_install("s", true, server("srv", Some("make")), "/c", Some("/bin/srv".into()), true, Some(&want))
            .unwrap();
    assert!(matches!(plan, InstallPlan::RunRecipe { .. }));
}

#[test]
fn finish_install_checks_recipe_and_output() {
    let b = || CachePath::new("/c").join("s");
    assert!(finish_install("s", server("x", None), b(), true, Some(0), String::new(), true).is_ok());
    let e = finish_install("s", server("x", None), b(), false, Some(2), "boom".into(), true).unwrap_err();
    assert!(matches!(e, lsp_install::InstallError::Recipe { status: Some(2), .. }));
    let e = finish_install("s", server("x", None), b(), true, Some(0), String::new(), false).unwrap_err();
    assert!(matches!(e, lsp_install::InstallError::RecipeMissingOutput { .. }));
}

#[test]
fn try_load_cached_server_prefers_path_then_cache() {
    let m = Manifest::from_entries(vec![("py".to_string(), server("pyls", None))]);
    let s = lsp_install::try_load_cached("py", &m, "/c", Some("/usr/bin/pyls".into()), false).unwrap();
    assert_eq!(s.binary.root, "/usr/bin/pyls");
    let s = lsp_install::try_load_cached("py", &m, "/c", None, true).unwrap();
    assert_eq!(parts(&s.binary), vec!["py", "bin", "pyls"]);
    assert!(lsp_install::try_load_cached("py", &m, "/c", None, false).is_none());
    assert!(lsp_install::try_load_cached("rb", &m, "/c", Some("/x".into()), true).is_none());
}

#[test]
fn missing_backend_installs_once_then_warns_once() {
    let mut b: LanguageBackend<GrammarSpec> = LanguageBackend::new(Manifest::default());
    match b.on_missing(BackendKind::Grammar, "rust") {
        MissingBackend::Install { notice } => assert_eq!(notice, "installing tree-sitter grammar `rust`…"),
        other => panic!("unexpected {other:?}"),
    }
    let notice = b.on_install_failed(BackendKind::Grammar, "rust", "no git");
    assert_eq!(
        notice,
        "auto-install of `rust` failed: no git — run `(grammar-install 'rust)` manually or `(set-grammar-auto-install nil)` to silence this"
    );
    assert!(matches!(b.on_missing(BackendKind::Grammar, "rust"), MissingBackend::Warn { .. }));
    assert!(matches!(b.on_missing(BackendKind::Grammar, "rust"), MissingBackend::Quiet));
    let mut l: LanguageBackend<ServerSpec> = LanguageBackend::new(Manifest::default());
    l.auto_install = false;
    match l.on_missing(BackendKind::LspServer, "pyright") {
        MissingBackend::Warn { notice } => assert_eq!(
            notice,
            "lsp server `pyright` not installed — run `(lsp-install 'pyright)` or `(set-lsp-auto-install t)`"
        ),
        other => panic!("unexpected {other:?}"),
    }
}

#[test]
fn lsp_language_id_and_start_notice() {
    let mut s = server("ra", None);
    assert_eq!(lsp_install::language_id(&s, "rs"), "rs");
    s.extensions = vec!["rust".into(), "rs".into()];
    assert_eq!(lsp_install::language_id(&s, "rs"), "rust");
    assert_eq!(lsp_install::start_failed_notice("ra", "boom"), "lsp `ra` failed to start: boom");
}

#[test]
fn clone_spec_keeps_initialization_options_and_env() {
    let mut s = server("ra", Some("make"));
    s.initialization_options = Some(toml::Value::Integer(3));
    s.env = vec![("RUST_LOG".to_string(), "info".to_string())];
    s.args = vec!["--stdio".to_string()];
    let c = lsp_install::clone_spec(&s);
    assert_eq!(c.initialization_options, Some(toml::Value::Integer(3)));
    assert_eq!(c.env, vec![("RUST_LOG".to_string(), "info".to_string())]);
    assert_eq!(c.args, vec!["--stdio".to_string()]);
    assert_eq!(c.command, "ra");
    assert_eq!(c.install.as_deref(), Some("make"));
}

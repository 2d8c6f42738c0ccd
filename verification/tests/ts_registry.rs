use rizzler::ts_registry::TsRegistry;

#[test]
fn empty_registry_returns_none() {
    let reg: TsRegistry<&str> = TsRegistry::new();
    assert!(reg.highlighter_for_path("foo.rs").is_none());
}

#[test]
fn registry_returns_none_for_path_without_extension() {
    let reg: TsRegistry<&str> = TsRegistry::new();
    assert!(reg.highlighter_for_path("Makefile").is_none());
}

#[test]
fn registered_extensions_pick_the_grammar() {
    let mut reg: TsRegistry<&str> = TsRegistry::new();
    assert!(reg.is_empty());
    reg.register(&[".RS".to_string(), "rust".to_string()], "rust-grammar");
    assert_eq!(reg.len(), 2);
    assert_eq!(reg.highlighter_for_path("main.rs"), Some(&"rust-grammar"));
    assert_eq!(reg.highlighter_for_path("MAIN.RS"), Some(&"rust-grammar"));
    assert_eq!(reg.highlighter_for_path("lib.rust"), Some(&"rust-grammar"));
    assert_eq!(reg.highlighter_for_path("x.py"), None);
    // A later registration takes the extension over.
    reg.register(&["rs".to_string()], "other");
    assert_eq!(reg.len(), 2);
    assert_eq!(reg.highlighter_for_path("main.rs"), Some(&"other"));
    assert_eq!(reg.highlighter_for_path("lib.rust"), Some(&"rust-grammar"));
}

#[test]
fn registry_matches_the_file_name_of_a_path() {
    let mut reg: TsRegistry<&str> = TsRegistry::new();
    reg.register(&["rs".to_string()], "rust-grammar");
    assert_eq!(reg.highlighter_for_path("crates/core/src/Lib.RS"), Some(&"rust-grammar"));
    assert_eq!(reg.highlighter_for_path("src.rs/notes.txt"), None);
}

#[test]
fn failed_load_leaves_the_registry_untouched() {
    let mut reg: TsRegistry<&str> = TsRegistry::new();
    assert_eq!(reg.register_loaded(&["rs".to_string()], Err::<&str, String>("no library".to_string())), Err("no library".to_string()));
    assert!(reg.is_empty());
    assert_eq!(reg.register_loaded(&["py".to_string()], Ok::<&str, String>("python")), Ok(()));
    assert_eq!(reg.highlighter_for_path("a/b.py"), Some(&"python"));
    assert_eq!(reg.highlighter_for_path("b.rs"), None);
}

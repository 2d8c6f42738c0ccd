use rizzler::highlight::{Language, file_extension};

#[test]
fn detects_rust_from_extension() {
    let p = "foo.rs";
    assert_eq!(Language::from_path(p), Some(Language::Rust));
}

#[test]
fn rejects_unknown_extension() {
    let p = "foo.txt";
    assert_eq!(Language::from_path(p), None);
}

#[test]
fn from_path_uses_the_file_name_of_a_longer_path() {
    assert_eq!(Language::from_path("src/text/mod.rs"), Some(Language::Rust));
    assert_eq!(Language::from_path("dir.rs/README"), None);
}

#[test]
fn extension_rules() {
    assert_eq!(file_extension("foo.rs"), Some("rs"));
    assert_eq!(file_extension("archive.tar.gz"), Some("gz"));
    assert_eq!(file_extension(".bashrc"), None);
    assert_eq!(file_extension("Makefile"), None);
    assert_eq!(file_extension("foo."), Some(""));
    assert_eq!(file_extension(".."), None);
    assert_eq!(Language::from_extension(Some("rs")), Some(Language::Rust));
    assert_eq!(Language::from_extension(None), None);
}

#[test]
fn language_from_path_reads_the_last_part() {
    assert_eq!(Language::from_path("src/main.rs"), Some(Language::Rust));
    assert_eq!(Language::from_path("/home/u/proj/src/lib.rs"), Some(Language::Rust));
    assert_eq!(Language::from_path("./a/b.py"), None);
    assert_eq!(Language::from_path("rs/Makefile"), None);
    assert_eq!(Language::from_path("dir.rs/.rs"), None);
}

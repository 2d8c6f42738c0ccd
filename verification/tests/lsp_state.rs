use rizzler::lsp::document::{ChangeEvent, DocumentCmd, LspBufferAttachment, LspRange};
use rizzler::lsp::position::{Encoding, LspPosition};
use rizzler::lsp::registry::{LspClientId, LspRegistry, RunningClient, SpawnReply};
use rizzler::text::rope::rope_from_str;

fn attachment(enc: Encoding) -> LspBufferAttachment<String> {
    LspBufferAttachment::new(LspClientId(7), "file:///a.rs".to_string(), "rust".to_string(), enc)
}

#[test]
fn did_open_sends_version_one_and_text() {
    let mut a = attachment(Encoding::Utf16);
    assert_eq!(a.version(), 0);
    match a.did_open(&rope_from_str("fn main() {}\n")) {
        DocumentCmd::DidOpen { client, uri, language_id, version, text } => {
            assert_eq!(client, LspClientId(7));
            assert_eq!(uri, "file:///a.rs");
            assert_eq!(language_id, "rust");
            assert_eq!(version, 1);
            assert_eq!(text, "fn main() {}\n");
        }
        other => panic!("unexpected {other:?}"),
    }
    assert_eq!(a.version(), 1);
}

fn single_change(cmd: DocumentCmd) -> (i32, ChangeEvent) {
    match cmd {
        DocumentCmd::DidChange { version, mut changes, .. } => {
            assert_eq!(changes.len(), 1);
            (version, changes.remove(0))
        }
        other => panic!("unexpected {other:?}"),
    }
}

#[test]
fn record_edit_converts_to_lsp_range() {
    let mut a = attachment(Encoding::Utf16);
    let rope = rope_from_str("ab\nc😀de\n");
    a.did_open(&rope);
    // Replace "de" (chars 5..7) on line 1 with "X".
    let (version, change) = single_change(a.record_edit(5, "de", "X", &rope));
    assert_eq!(version, 2);
    assert_eq!(change.text, "X");
    assert_eq!(
        change.range,
        Some(LspRange {
            start: LspPosition { line: 1, character: 3 },
            end: LspPosition { line: 1, character: 5 },
        })
    );
}

#[test]
fn record_edit_across_lines_ends_on_next_line() {
    let mut a = attachment(Encoding::Utf8);
    let rope = rope_from_str("hello\nworld\n");
    let (version, change) = single_change(a.try_record_edit(3, "lo\nwo", "", &rope).unwrap());
    assert_eq!(version, 1);
    assert_eq!(
        change.range,
        Some(LspRange {
            start: LspPosition { line: 0, character: 3 },
            end: LspPosition { line: 1, character: 2 },
        })
    );
}

#[test]
fn did_close_names_the_document() {
    let mut a = attachment(Encoding::Utf32);
    match a.did_close() {
        DocumentCmd::DidClose { client, uri } => {
            assert_eq!(client, LspClientId(7));
            assert_eq!(uri, "file:///a.rs");
        }
        other => panic!("unexpected {other:?}"),
    }
    assert_eq!(a.encoding(), Encoding::Utf32);
    assert_eq!(a.uri(), "file:///a.rs");
    assert_eq!(a.client(), LspClientId(7));
}

#[test]
fn replacing_diagnostics_bumps_generation() {
    let mut a = attachment(Encoding::Utf16);
    assert_eq!(a.diagnostics_version(), 0);
    a.replace_diagnostics(vec!["unused".to_string()]);
    assert_eq!(a.diagnostics(), &["unused".to_string()][..]);
    assert_eq!(a.diagnostics_version(), 1);
    a.replace_diagnostics(Vec::new());
    assert!(a.diagnostics().is_empty());
    assert_eq!(a.diagnostics_version(), 2);
}

#[test]
fn registry_records_started_clients() {
    let mut r = LspRegistry::new();
    assert_eq!(r.get("rust"), None);
    let c = r
        .settle_spawn("rust", Some(SpawnReply::Started { client: LspClientId(1), encoding: Encoding::Utf8 }))
        .unwrap();
    assert_eq!(c, RunningClient { id: LspClientId(1), encoding: Encoding::Utf8 });
    assert_eq!(r.get("rust"), Some(c));
    assert_eq!(r.names(), vec!["rust"]);
    assert_eq!(r.iter(), vec![("rust", c)]);
}

#[test]
fn registry_reports_spawn_failures() {
    let mut r = LspRegistry::new();
    assert_eq!(r.settle_spawn("py", Some(SpawnReply::Failed("no binary".into()))).unwrap_err(), "no binary");
    assert_eq!(r.settle_spawn("py", None).unwrap_err(), "lsp runtime did not reply within 6s");
    assert_eq!(r.get("py"), None);
}

#[test]
fn registry_shutdown_and_forget() {
    let mut r = LspRegistry::new();
    let started = |id| Some(SpawnReply::Started { client: LspClientId(id), encoding: Encoding::Utf16 });
    r.settle_spawn("a", started(1)).unwrap();
    r.settle_spawn("b", started(2)).unwrap();
    r.settle_spawn("c", started(2)).unwrap();
    assert_eq!(r.shutdown("a"), Some(LspClientId(1)));
    assert_eq!(r.shutdown("a"), None);
    r.forget(LspClientId(2));
    assert!(r.names().is_empty());
    r.settle_spawn("d", started(3)).unwrap();
    r.settle_spawn("e", started(4)).unwrap();
    let mut ids = r.shutdown_all();
    ids.sort_by_key(|c| c.0);
    assert_eq!(ids, vec![LspClientId(3), LspClientId(4)]);
    assert_eq!(r.get("d"), None);
}

#[test]
fn try_record_edit_refuses_points_past_the_end() {
    let mut a = attachment(Encoding::Utf16);
    let rope = rope_from_str("abc");
    assert!(a.try_record_edit(4, "", "x", &rope).is_none());
    assert_eq!(a.version(), 0);
    assert!(a.try_record_edit(3, "", "x", &rope).is_some());
    assert_eq!(a.version(), 1);
}

use rizzler::lsp::session::{
    format_timeout_notice, AnswerAction, LspAnswer, LspSession, PendingLspKind, LSP_FORMAT_TIMEOUT_MS,
};
use rizzler::text::buffer::Position;

#[test]
fn hover_response_routes_via_pending() {
    let mut s: LspSession<u32> = LspSession::new();
    let seq = s.alloc_seq();
    assert_eq!(seq, 1);
    let anchor = Position::new(3usize, 2usize);
    s.track(seq, PendingLspKind::Hover { buf: 7, anchor });
    assert!(s.is_pending(seq));
    let act = s.settle(LspAnswer::Hover { seq, contents: Some("fn main()".to_string()) });
    assert_eq!(act, AnswerAction::ShowHover { contents: "fn main()".to_string(), anchor });
    assert!(!s.is_pending(seq));
    // A second answer under the same number does nothing.
    let again = s.settle(LspAnswer::Hover { seq, contents: Some("x".to_string()) });
    assert_eq!(again, AnswerAction::Nothing);
}

#[test]
fn empty_hover_shows_nothing_but_settles() {
    let mut s: LspSession<u32> = LspSession::new();
    let seq = s.alloc_seq();
    s.track(seq, PendingLspKind::Hover { buf: 1, anchor: Position::new(0usize, 0usize) });
    assert_eq!(s.settle(LspAnswer::Hover { seq, contents: Some(String::new()) }), AnswerAction::Nothing);
    assert!(!s.is_pending(seq));
}

#[test]
fn response_with_unknown_seq_is_dropped() {
    let mut s: LspSession<u32> = LspSession::new();
    assert_eq!(s.settle(LspAnswer::Definition { seq: 99 }), AnswerAction::Nothing);
    assert_eq!(s.settle(LspAnswer::Completion { seq: 99 }), AnswerAction::Nothing);
}

#[test]
fn answer_of_another_kind_uses_up_the_number() {
    let mut s: LspSession<u32> = LspSession::new();
    let seq = s.alloc_seq();
    s.track(seq, PendingLspKind::GotoDefinition { buf: 1 });
    assert_eq!(s.settle(LspAnswer::Completion { seq }), AnswerAction::Nothing);
    assert!(!s.is_pending(seq));
}

#[test]
fn format_response_after_deadline_is_dropped_with_notice() {
    let mut s: LspSession<u32> = LspSession::new();
    let early = s.alloc_seq();
    let late = s.alloc_seq();
    s.track(early, PendingLspKind::Format { buf: 4, deadline_ms: LSP_FORMAT_TIMEOUT_MS });
    s.track(late, PendingLspKind::Format { buf: 4, deadline_ms: LSP_FORMAT_TIMEOUT_MS });
    assert_eq!(s.settle(LspAnswer::Format { seq: early, now_ms: 2000 }), AnswerAction::ApplyFormat { buf: 4 });
    assert_eq!(s.settle(LspAnswer::Format { seq: late, now_ms: 2001 }), AnswerAction::FormatTimedOut);
    assert_eq!(format_timeout_notice(), "lsp format: timed out");
}

#[test]
fn empty_definition_and_code_actions_still_show() {
    let mut s: LspSession<u32> = LspSession::new();
    s.track(5, PendingLspKind::GotoDefinition { buf: 1 });
    s.track(6, PendingLspKind::CodeAction { buf: 1 });
    assert_eq!(s.settle(LspAnswer::Definition { seq: 5 }), AnswerAction::ShowDefinitions);
    assert_eq!(s.settle(LspAnswer::CodeAction { seq: 6 }), AnswerAction::ShowCodeActions);
}

#[test]
fn request_error_clears_pending_request() {
    let mut s: LspSession<u32> = LspSession::new();
    let anchor = Position::new(1usize, 1usize);
    s.track(3, PendingLspKind::Completion { buf: 2, anchor });
    assert_eq!(s.settle(LspAnswer::RequestError { seq: 3 }), AnswerAction::Nothing);
    assert!(!s.is_pending(3));
    s.track(3, PendingLspKind::Completion { buf: 2, anchor });
    s.track(3, PendingLspKind::CodeAction { buf: 2 });
    assert_eq!(s.settle(LspAnswer::Completion { seq: 3 }), AnswerAction::Nothing);
}

#[test]
fn track_format_sets_the_deadline_after_now() {
    let mut s: LspSession<u32> = LspSession::new();
    let seq = s.track_format(3, 500);
    assert_eq!(seq, 1);
    assert!(s.is_pending(seq));
    assert_eq!(s.settle(LspAnswer::Format { seq, now_ms: 2500 }), AnswerAction::ApplyFormat { buf: 3 });
    let seq = s.track_format(3, 500);
    assert_eq!(seq, 2);
    assert_eq!(s.settle(LspAnswer::Format { seq, now_ms: 2501 }), AnswerAction::FormatTimedOut);
    // Near the clock's end the deadline saturates.
    let seq = s.track_format(9, u64::MAX - 1);
    assert_eq!(s.settle(LspAnswer::Format { seq, now_ms: u64::MAX }), AnswerAction::ApplyFormat { buf: 9 });
}

use rizzler::lsp::client::{
    handle_cmd, ClientCmd, Outgoing, notification_kind, pending_kind_seq, render_hover, reply_to_server_request, response_outcome,
    ClientState, NotificationKind, PendingKind, RequestKind, ResponseOutcome, ServerReply,
    FIRST_REQUEST_ID, handshake_step, HandshakeStep,
};
use rizzler::lsp::document::ChangeEvent;
use rizzler::lsp::message::{RequestId, ResponseError};
use rizzler::lsp::position::LspPosition;
use rizzler::lsp::registry::LspClientId;
use rizzler::lsp::runtime::{dispatch_to_client, ClientIds, RuntimeCmd};

fn change(text: &str) -> ChangeEvent {
    ChangeEvent { range: None, text: text.to_string() }
}

#[test]
fn requests_get_fresh_ids_and_responses_route_back() {
    let mut c = ClientState::new();
    let (_, hover) = c.start_request(RequestKind::Hover, 7);
    let (_, def) = c.start_request(RequestKind::GotoDefinition, 8);
    assert_eq!(hover, FIRST_REQUEST_ID);
    assert_eq!(def, FIRST_REQUEST_ID + 1);
    assert_eq!(c.cancel_id(8), Some(def));
    assert_eq!(c.cancel_id(9), None);
    assert_eq!(c.settle_response(&RequestId::number(def)), Some(PendingKind::GotoDefinition(8)));
    assert_eq!(c.settle_response(&RequestId::number(def)), None);
    assert_eq!(c.settle_response(&RequestId::String("x".into())), None);
    assert_eq!(c.settle_response(&RequestId::number(hover)), Some(PendingKind::Hover(7)));
}

#[test]
fn changes_batch_per_document_until_flush() {
    let mut c = ClientState::new();
    c.queue_change("file:///a".into(), 2, vec![change("x")]);
    c.queue_change("file:///b".into(), 5, vec![change("y")]);
    c.queue_change("file:///a".into(), 3, vec![change("z")]);
    let (flushed, _) = c.start_request(RequestKind::Completion, 1);
    assert_eq!(flushed.len(), 2);
    let a = flushed.iter().find(|(u, _)| u == "file:///a").unwrap();
    assert_eq!(a.1.version, 3);
    let texts: Vec<&str> = a.1.changes.iter().map(|c| c.text.as_str()).collect();
    assert_eq!(texts, vec!["x", "z"]);
    assert!(c.take_changes().is_empty());
}

#[test]
fn execute_command_does_not_flush_and_close_drops_batch() {
    let mut c = ClientState::new();
    c.queue_change("file:///a".into(), 2, vec![change("x")]);
    let (flushed, _) = c.start_request(RequestKind::ExecuteCommand, 1);
    assert!(flushed.is_empty());
    c.close_document("file:///a");
    assert!(c.take_changes().is_empty());
    c.queue_change("file:///b".into(), 1, vec![]);
    let (flushed, id) = c.start_shutdown();
    assert_eq!(flushed.len(), 1);
    assert_eq!(c.settle_response(&RequestId::number(id)), Some(PendingKind::Shutdown));
}

#[test]
fn response_outcomes() {
    let err = || Some(ResponseError { code: -1, message: "boom".into() });
    assert_eq!(
        response_outcome(PendingKind::Hover(4), err()),
        ResponseOutcome::RequestError { seq: 4, message: "boom".into() }
    );
    assert_eq!(response_outcome(PendingKind::Shutdown, err()), ResponseOutcome::Drop);
    assert_eq!(response_outcome(PendingKind::Format(2), None), ResponseOutcome::Deliver(PendingKind::Format(2)));
    assert_eq!(response_outcome(PendingKind::ExecuteCommand(2), None), ResponseOutcome::Drop);
    assert_eq!(pending_kind_seq(PendingKind::CodeAction(9)), Some(9));
    assert_eq!(pending_kind_seq(PendingKind::Initialize), None);
}

#[test]
fn server_requests_get_answers() {
    assert!(matches!(reply_to_server_request("workspace/applyEdit"), ServerReply::Applied));
    assert!(matches!(reply_to_server_request("window/workDoneProgress/create"), ServerReply::Acknowledged));
    match reply_to_server_request("workspace/configuration") {
        ServerReply::Refused(e) => {
            assert_eq!(e.code, -32601);
            assert_eq!(e.message, "rizz_lsp: method `workspace/configuration` not implemented");
        }
        other => panic!("unexpected {other:?}"),
    }
}

#[test]
fn notifications_are_classified() {
    assert_eq!(notification_kind("textDocument/publishDiagnostics"), NotificationKind::Diagnostics);
    assert_eq!(notification_kind("window/logMessage"), NotificationKind::Message);
    assert_eq!(notification_kind("window/showMessage"), NotificationKind::Message);
    assert_eq!(notification_kind("$/progress"), NotificationKind::Ignored);
}

#[test]
fn hover_parts_join_with_blank_lines() {
    assert_eq!(render_hover(&vec!["a".into(), "b".into()]), "a\n\nb");
    assert_eq!(render_hover(&vec!["only".into()]), "only");
    assert_eq!(render_hover(&vec![]), "");
}

#[test]
fn handle_cmd_sends_requests_under_fresh_ids() {
    let mut c = ClientState::new();
    let (flushed, out) = handle_cmd::<()>(
        &mut c,
        ClientCmd::DidChange { uri: "file:///a".into(), version: 2, changes: vec![change("x")] },
    );
    assert!(flushed.is_empty());
    assert!(matches!(out, Outgoing::Nothing));
    let pos = LspPosition { line: 0, character: 1 };
    let (flushed, out) =
        handle_cmd::<()>(&mut c, ClientCmd::Hover { seq: 3, uri: "file:///a".into(), position: pos });
    assert_eq!(flushed.len(), 1);
    match out {
        Outgoing::Request { id, cmd: ClientCmd::Hover { seq, .. } } => {
            assert_eq!(id, FIRST_REQUEST_ID);
            assert_eq!(seq, 3);
        }
        other => panic!("unexpected {other:?}"),
    }
    let (_, out) = handle_cmd::<()>(&mut c, ClientCmd::Cancel { seq: 3 });
    assert!(matches!(out, Outgoing::CancelRequest { id } if id == FIRST_REQUEST_ID));
    let (_, out) = handle_cmd::<()>(&mut c, ClientCmd::DidClose { uri: "file:///a".into() });
    assert!(matches!(out, Outgoing::DidClose { .. }));
}

#[test]
fn runtime_routes_commands_to_their_client() {
    let routed = dispatch_to_client::<(), ()>(RuntimeCmd::DidClose { client: LspClientId(4), uri: "u".into() });
    match routed {
        Some((LspClientId(4), ClientCmd::DidClose { uri })) => assert_eq!(uri, "u"),
        other => panic!("unexpected {other:?}"),
    }
    assert!(dispatch_to_client::<(), ()>(RuntimeCmd::Shutdown { client: LspClientId(4) }).is_none());
    let mut ids = ClientIds::new();
    assert_eq!(ids.fresh(), LspClientId(1));
    assert_eq!(ids.fresh(), LspClientId(2));
}

#[test]
fn handshake_waits_for_the_initialize_answer() {
    let zero = RequestId::number(0);
    assert_eq!(handshake_step(Some(&zero), None), HandshakeStep::Ready);
    let err = ResponseError { code: -32603, message: "no workspace".to_string() };
    assert_eq!(
        handshake_step(Some(&zero), Some(err)),
        HandshakeStep::Failed("no workspace".to_string())
    );
    assert_eq!(handshake_step(Some(&RequestId::number(7)), None), HandshakeStep::Wait);
    assert_eq!(handshake_step(Some(&RequestId::String("0".to_string())), None), HandshakeStep::Wait);
    assert_eq!(handshake_step(None, None), HandshakeStep::Wait);
}

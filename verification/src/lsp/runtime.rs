//! Commands the editor sends to the LSP runtime, and how the runtime routes
//! them: spawning and shutting clients down is the runtime's own work,
//! every other command goes to the client task it names.

use vstd::prelude::*;

use crate::install::lsp_install::ServerSpec;
use crate::lsp::client::{ClientCmd, RequestSeq};
use crate::lsp::document::{ChangeEvent, LspRange};
use crate::lsp::position::LspPosition;
use crate::lsp::registry::LspClientId;

verus! {

/// A command for the runtime; `A` is the type of an `executeCommand`
/// argument and `R` the channel a spawn is answered on.
#[derive(Debug)]
pub enum RuntimeCmd<A, R> {
    /// Spawn a client; the runtime answers on `reply` once `initialize`
    /// succeeded.
    SpawnClient { name: String, binary: String, spec: ServerSpec, root_uri: Option<String>, reply: R },
    DidOpen { client: LspClientId, uri: String, language_id: String, version: i32, text: String },
    DidChange { client: LspClientId, uri: String, version: i32, changes: Vec<ChangeEvent> },
    DidClose { client: LspClientId, uri: String },
    Hover { client: LspClientId, seq: RequestSeq, uri: String, position: LspPosition },
    GotoDefinition { client: LspClientId, seq: RequestSeq, uri: String, position: LspPosition },
    Completion { client: LspClientId, seq: RequestSeq, uri: String, position: LspPosition },
    Format { client: LspClientId, seq: RequestSeq, uri: String, tab_size: u32, insert_spaces: bool },
    CodeAction { client: LspClientId, seq: RequestSeq, uri: String, range: LspRange },
    ExecuteCommand { client: LspClientId, seq: RequestSeq, command: String, arguments: Vec<A> },
    Cancel { client: LspClientId, seq: RequestSeq },
    /// Shut the client down: `shutdown`, then `exit`.
    Shutdown { client: LspClientId },
}

/// Where a command goes: the client it names and the command that client
/// gets, the same fields carried over; none for spawning and shutting down,
/// which the runtime handles itself.
pub open spec fn spec_route<A, R>(cmd: RuntimeCmd<A, R>) -> Option<(LspClientId, ClientCmd<A>)> {
    match cmd {
        RuntimeCmd::DidOpen { client, uri, language_id, version, text } => Some(
            (client, ClientCmd::DidOpen { uri, language_id, version, text }),
        ),
        RuntimeCmd::DidChange { client, uri, version, changes } => Some(
            (client, ClientCmd::DidChange { uri, version, changes }),
        ),
        RuntimeCmd::DidClose { client, uri } => Some((client, ClientCmd::DidClose { uri })),
        RuntimeCmd::Hover { client, seq, uri, position } => Some(
            (client, ClientCmd::Hover { seq, uri, position }),
        ),
        RuntimeCmd::GotoDefinition { client, seq, uri, position } => Some(
            (client, ClientCmd::GotoDefinition { seq, uri, position }),
        ),
        RuntimeCmd::Completion { client, seq, uri, position } => Some(
            (client, ClientCmd::Completion { seq, uri, position }),
        ),
        RuntimeCmd::Format { client, seq, uri, tab_size, insert_spaces } => Some(
            (client, ClientCmd::Format { seq, uri, tab_size, insert_spaces }),
        ),
        RuntimeCmd::CodeAction { client, seq, uri, range } => Some(
            (client, ClientCmd::CodeAction { seq, uri, range }),
        ),
        RuntimeCmd::ExecuteCommand { client, seq, command, arguments } => Some(
            (client, ClientCmd::ExecuteCommand { seq, command, arguments }),
        ),
        RuntimeCmd::Cancel { client, seq } => Some((client, ClientCmd::Cancel { seq })),
        RuntimeCmd::Shutdown { .. } | RuntimeCmd::SpawnClient { .. } => None,
    }
}

/// Route a command to the client it names (see [`spec_route`]).
pub fn dispatch_to_client<A, R>(cmd: RuntimeCmd<A, R>) -> (r: Option<(LspClientId, ClientCmd<A>)>)
    ensures
        r == spec_route(cmd),
{
    match cmd {
        RuntimeCmd::DidOpen { client, uri, language_id, version, text } => Some(
            (client, ClientCmd::DidOpen { uri, language_id, version, text }),
        ),
        RuntimeCmd::DidChange { client, uri, version, changes } => Some(
            (client, ClientCmd::DidChange { uri, version, changes }),
        ),
        RuntimeCmd::DidClose { client, uri } => Some((client, ClientCmd::DidClose { uri })),
        RuntimeCmd::Hover { client, seq, uri, position } => Some(
            (client, ClientCmd::Hover { seq, uri, position }),
        ),
        RuntimeCmd::GotoDefinition { client, seq, uri, position } => Some(
            (client, ClientCmd::GotoDefinition { seq, uri, position }),
        ),
        RuntimeCmd::Completion { client, seq, uri, position } => Some(
            (client, ClientCmd::Completion { seq, uri, position }),
        ),
        RuntimeCmd::Format { client, seq, uri, tab_size, insert_spaces } => Some(
            (client, ClientCmd::Format { seq, uri, tab_size, insert_spaces }),
        ),
        RuntimeCmd::CodeAction { client, seq, uri, range } => Some(
            (client, ClientCmd::CodeAction { seq, uri, range }),
        ),
        RuntimeCmd::ExecuteCommand { client, seq, command, arguments } => Some(
            (client, ClientCmd::ExecuteCommand { seq, command, arguments }),
        ),
        RuntimeCmd::Cancel { client, seq } => Some((client, ClientCmd::Cancel { seq })),
        RuntimeCmd::Shutdown { .. } | RuntimeCmd::SpawnClient { .. } => None,
    }
}

/// Client ids the runtime hands out, counting up from 1.
#[derive(Debug)]
pub struct ClientIds {
    next: u64,
}

impl ClientIds {
    pub closed spec fn spec_next(&self) -> u64 {
        self.next
    }

    pub fn new() -> (c: Self)
        ensures
            c.spec_next() == 1,
    {
        ClientIds { next: 1 }
    }

    /// The number the next client will get.
    pub fn peek(&self) -> (n: u64)
        ensures
            n == self.spec_next(),
    {
        self.next
    }

    /// A fresh client id: each one handed out is larger than every one
    /// before it.
    pub fn fresh(&mut self) -> (id: LspClientId)
        requires
            old(self).spec_next() < u64::MAX,
        ensures
            id == LspClientId(old(self).spec_next()),
            final(self).spec_next() == old(self).spec_next() + 1,
    {
        let id = LspClientId(self.next);
        self.next = self.next + 1;
        id
    }
}

} // verus!

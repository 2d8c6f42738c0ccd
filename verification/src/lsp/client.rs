//! What one language-server client decides, apart from talking to the
//! server: which JSON-RPC id each request goes out under and which request
//! a response answers, how document changes are batched per URI until the
//! next flush, how server-initiated requests are answered, and how hover
//! contents are rendered. The task that owns the connection performs the
//! sends these decisions call for.

use vstd::prelude::*;

use crate::assoc::{
    keys_distinct, lemma_pairs_map_at, lemma_pairs_map_dom,
    lemma_pairs_map_push, lemma_pairs_map_remove, lemma_pairs_map_update, pairs_map,
};
use crate::lsp::document::{ChangeEvent, LspRange};
use crate::lsp::position::LspPosition;
use crate::lsp::message::{RequestId, ResponseError};

use std::collections::hash_map::RandomState;
use std::collections::HashMap;

use vstd::std_specs::hash::{builds_valid_hashers, obeys_key_model, spec_hash_map_iter};
use vstd::std_specs::iter::IteratorSpec;
use crate::strs::str_eq;

verus! {

/// The editor-side number of an in-flight request.
pub type RequestSeq = u64;

/// The first id a client hands out; the ones below are kept for the
/// handshake.
pub const FIRST_REQUEST_ID: i64 = 100;

/// What an outstanding request was for.
#[derive(Debug, Clone, Copy, PartialEq, Eq, Structural)]
pub enum PendingKind {
    Hover(RequestSeq),
    GotoDefinition(RequestSeq),
    Completion(RequestSeq),
    Format(RequestSeq),
    CodeAction(RequestSeq),
    ExecuteCommand(RequestSeq),
    /// The `initialize` handshake; its answer never reaches the editor.
    Initialize,
    /// `shutdown`, sent before `exit`.
    Shutdown,
}

/// The kinds of request the editor asks a client to send.
#[derive(Debug, Clone, Copy, PartialEq, Eq, Structural)]
pub enum RequestKind {
    Hover,
    GotoDefinition,
    Completion,
    Format,
    CodeAction,
    ExecuteCommand,
}

/// The editor-side number a request carries, if it has one.
pub open spec fn spec_kind_seq(k: PendingKind) -> Option<RequestSeq> {
    match k {
        PendingKind::Hover(s) | PendingKind::GotoDefinition(s) | PendingKind::Completion(s)
        | PendingKind::Format(s) | PendingKind::CodeAction(s) | PendingKind::ExecuteCommand(s) => Some(
            s,
        ),
        PendingKind::Initialize | PendingKind::Shutdown => None,
    }
}

pub fn pending_kind_seq(kind: PendingKind) -> (r: Option<RequestSeq>)
    ensures
        r == spec_kind_seq(kind),
{
    match kind {
        PendingKind::Hover(s) | PendingKind::GotoDefinition(s) | PendingKind::Completion(s)
        | PendingKind::Format(s) | PendingKind::CodeAction(s) | PendingKind::ExecuteCommand(s) => Some(
            s,
        ),
        PendingKind::Initialize | PendingKind::Shutdown => None,
    }
}

/// The pending kind a request of `kind` numbered `seq` is recorded as.
pub open spec fn spec_pending(kind: RequestKind, seq: RequestSeq) -> PendingKind {
    match kind {
        RequestKind::Hover => PendingKind::Hover(seq),
        RequestKind::GotoDefinition => PendingKind::GotoDefinition(seq),
        RequestKind::Completion => PendingKind::Completion(seq),
        RequestKind::Format => PendingKind::Format(seq),
        RequestKind::CodeAction => PendingKind::CodeAction(seq),
        RequestKind::ExecuteCommand => PendingKind::ExecuteCommand(seq),
    }
}

/// The changes queued for one document: the latest version and every
/// change since the last flush, in order.
#[derive(Debug)]
pub struct PendingChange {
    pub version: i32,
    pub changes: Vec<ChangeEvent>,
}

/// A client's request bookkeeping and queued document changes.
#[derive(Debug)]
pub struct ClientState {
    next_id: i64,
    pending: HashMap<i64, PendingKind>,
    changes: Vec<(String, PendingChange)>,
}

/// Queued changes as text keys and plain values.
pub open spec fn batch_view(v: Seq<(String, PendingChange)>) -> Seq<(Seq<char>, (i32, Seq<ChangeEvent>))> {
    v.map_values(|e: (String, PendingChange)| (e.0@, (e.1.version, e.1.changes@)))
}

impl ClientState {
    /// The id the next request goes out under.
    pub closed spec fn spec_next_id(&self) -> i64 {
        self.next_id
    }

    /// Outstanding requests by id.
    pub closed spec fn requests(&self) -> Map<i64, PendingKind> {
        self.pending@
    }

    /// Queued changes by document URI.
    pub closed spec fn batches(&self) -> Map<Seq<char>, (i32, Seq<ChangeEvent>)> {
        pairs_map(batch_view(self.changes@))
    }

    /// Ids and URIs occur once, and every outstanding id is below the
    /// next one.
    pub closed spec fn wf(&self) -> bool {
        &&& obeys_key_model::<i64>()
        &&& builds_valid_hashers::<RandomState>()
        &&& keys_distinct(batch_view(self.changes@))
        &&& forall|id: i64| #[trigger] self.pending@.contains_key(id) ==> id < self.next_id
    }

    pub fn new() -> (s: Self)
        ensures
            s.wf(),
            s.spec_next_id() == FIRST_REQUEST_ID,
            s.requests() == Map::<i64, PendingKind>::empty(),
            s.batches() == Map::<Seq<char>, (i32, Seq<ChangeEvent>)>::empty(),
    {
        broadcast use vstd::std_specs::hash::group_hash_axioms;

        let s = ClientState { next_id: FIRST_REQUEST_ID, pending: HashMap::new(), changes: Vec::new() };
        assert(batch_view(s.changes@) =~= Seq::<(Seq<char>, (i32, Seq<ChangeEvent>))>::empty());
        s
    }

    /// The id the next request will go out under.
    pub fn next_request_id(&self) -> (id: i64)
        ensures
            id == self.spec_next_id(),
    {
        self.next_id
    }

    fn find_batch(&self, uri: &str) -> (r: Option<usize>)
        requires
            self.wf(),
        ensures
            match r {
                Some(i) => i < self.changes@.len() && batch_view(self.changes@)[i as int].0 == uri@,
                None => !self.batches().contains_key(uri@),
            },
    {
        let mut i: usize = 0;
        while i < self.changes.len()
            invariant
                i <= self.changes@.len(),
                forall|j: int| 0 <= j < i ==> batch_view(self.changes@)[j].0 != uri@,
            decreases self.changes@.len() - i,
        {
            if str_eq(self.changes[i].0.as_str(), uri) {
                return Some(i);
            }
            i = i + 1;
        }
        proof {
            lemma_pairs_map_dom(batch_view(self.changes@), uri@);
        }
        None
    }

    /// Queue a `didChange` for `uri`: the batch takes the new version and
    /// the changes are appended to those already queued.
    pub fn queue_change(&mut self, uri: String, version: i32, changes: Vec<ChangeEvent>)
        requires
            old(self).wf(),
        ensures
            final(self).wf(),
            final(self).spec_next_id() == old(self).spec_next_id(),
            final(self).requests() == old(self).requests(),
            final(self).batches() == old(self).batches().insert(
                uri@,
                (
                    version,
                    if old(self).batches().contains_key(uri@) {
                        old(self).batches()[uri@].1 + changes@
                    } else {
                        changes@
                    },
                ),
            ),
    {
        let ghost bv = batch_view(self.changes@);
        match self.find_batch(uri.as_str()) {
            Some(i) => {
                proof {
                    lemma_pairs_map_at(bv, i as int);
                }
                let ghost old_entry = self.changes@[i as int];
                let ghost first = old_entry.1.changes@;
                let mut entry = self.changes.remove(i);
                entry.1.version = version;
                let mut rest = changes;
                entry.1.changes.append(&mut rest);
                self.changes.insert(i, entry);
                proof {
                    assert(batch_view(self.changes@) =~= bv.update(
                        i as int,
                        (bv[i as int].0, (version, first + changes@)),
                    ));
                    lemma_pairs_map_update(bv, i as int, (version, first + changes@));
                    assert forall|a: int, b: int|
                        0 <= a < b < batch_view(self.changes@).len() implies batch_view(
                        self.changes@,
                    )[a].0 != batch_view(self.changes@)[b].0 by {
                        assert(batch_view(self.changes@)[a].0 == bv[a].0);
                        assert(batch_view(self.changes@)[b].0 == bv[b].0);
                    }
                }
            },
            None => {
                let ghost key = uri@;
                let ghost cv = changes@;
                self.changes.push((uri, PendingChange { version, changes }));
                proof {
                    assert(batch_view(self.changes@) =~= bv.push((key, (version, cv))));
                    lemma_pairs_map_push(bv, (key, (version, cv)));
                    assert forall|a: int, b: int|
                        0 <= a < b < batch_view(self.changes@).len() implies batch_view(
                        self.changes@,
                    )[a].0 != batch_view(self.changes@)[b].0 by {
                        if b == bv.len() {
                            lemma_pairs_map_dom(bv, key);
                        }
                    }
                }
            },
        }
    }

    /// `didClose` for `uri`: its queued changes are dropped.
    pub fn close_document(&mut self, uri: &str)
        requires
            old(self).wf(),
        ensures
            final(self).wf(),
            final(self).spec_next_id() == old(self).spec_next_id(),
            final(self).requests() == old(self).requests(),
            final(self).batches() == old(self).batches().remove(uri@),
    {
        let ghost bv = batch_view(self.changes@);
        match self.find_batch(uri) {
            Some(i) => {
                let _ = self.changes.remove(i);
                proof {
                    assert(batch_view(self.changes@) =~= bv.remove(i as int));
                    lemma_pairs_map_remove(bv, i as int);
                }
            },
            None => {
                assert(self.batches() =~= self.batches().remove(uri@));
            },
        }
    }

    /// Flush: every queued batch, one per URI, handed out to be sent; none
    /// stay queued.
    pub fn take_changes(&mut self) -> (out: Vec<(String, PendingChange)>)
        requires
            old(self).wf(),
        ensures
            final(self).wf(),
            final(self).spec_next_id() == old(self).spec_next_id(),
            final(self).requests() == old(self).requests(),
            final(self).batches() == Map::<Seq<char>, (i32, Seq<ChangeEvent>)>::empty(),
            keys_distinct(batch_view(out@)),
            pairs_map(batch_view(out@)) == old(self).batches(),
    {
        let mut out: Vec<(String, PendingChange)> = Vec::new();
        std::mem::swap(&mut out, &mut self.changes);
        assert(batch_view(self.changes@) =~= Seq::<(Seq<char>, (i32, Seq<ChangeEvent>))>::empty());
        out
    }

    /// Record a request of `kind` numbered `seq` under a fresh id. Queued
    /// changes are flushed first so the server answers against the current
    /// text, except before `workspace/executeCommand`.
    pub fn start_request(&mut self, kind: RequestKind, seq: RequestSeq) -> (r: (
        Vec<(String, PendingChange)>,
        i64,
    ))
        requires
            old(self).wf(),
            old(self).spec_next_id() < i64::MAX,
        ensures
            final(self).wf(),
            r.1 == old(self).spec_next_id(),
            !old(self).requests().contains_key(r.1),
            final(self).spec_next_id() == old(self).spec_next_id() + 1,
            final(self).requests() == old(self).requests().insert(r.1, spec_pending(kind, seq)),
            kind == RequestKind::ExecuteCommand ==> {
                &&& r.0@.len() == 0
                &&& final(self).batches() == old(self).batches()
            },
            kind != RequestKind::ExecuteCommand ==> {
                &&& keys_distinct(batch_view(r.0@))
                &&& pairs_map(batch_view(r.0@)) == old(self).batches()
                &&& final(self).batches() == Map::<Seq<char>, (i32, Seq<ChangeEvent>)>::empty()
            },
    {
        let flushed = match kind {
            RequestKind::ExecuteCommand => Vec::new(),
            _ => self.take_changes(),
        };
        let pk = match kind {
            RequestKind::Hover => PendingKind::Hover(seq),
            RequestKind::GotoDefinition => PendingKind::GotoDefinition(seq),
            RequestKind::Completion => PendingKind::Completion(seq),
            RequestKind::Format => PendingKind::Format(seq),
            RequestKind::CodeAction => PendingKind::CodeAction(seq),
            RequestKind::ExecuteCommand => PendingKind::ExecuteCommand(seq),
        };
        let id = self.record(pk);
        (flushed, id)
    }

    /// Record `kind` under the next id.
    fn record(&mut self, kind: PendingKind) -> (id: i64)
        requires
            old(self).wf(),
            old(self).spec_next_id() < i64::MAX,
        ensures
            final(self).wf(),
            id == old(self).spec_next_id(),
            !old(self).requests().contains_key(id),
            final(self).spec_next_id() == old(self).spec_next_id() + 1,
            final(self).requests() == old(self).requests().insert(id, kind),
            final(self).batches() == old(self).batches(),
    {
        let id = self.next_id;
        self.pending.insert(id, kind);
        self.next_id = self.next_id + 1;
        id
    }

    /// Begin the shutdown: queued changes are flushed and a `shutdown`
    /// request is recorded under a fresh id (`exit` follows it).
    pub fn start_shutdown(&mut self) -> (r: (Vec<(String, PendingChange)>, i64))
        requires
            old(self).wf(),
            old(self).spec_next_id() < i64::MAX,
        ensures
            final(self).wf(),
            r.1 == old(self).spec_next_id(),
            final(self).spec_next_id() == old(self).spec_next_id() + 1,
            final(self).requests() == old(self).requests().insert(r.1, PendingKind::Shutdown),
            keys_distinct(batch_view(r.0@)),
            pairs_map(batch_view(r.0@)) == old(self).batches(),
            final(self).batches() == Map::<Seq<char>, (i32, Seq<ChangeEvent>)>::empty(),
    {
        let flushed = self.take_changes();
        let id = self.record(PendingKind::Shutdown);
        (flushed, id)
    }

    /// The id of an outstanding request numbered `seq`, to send
    /// `$/cancelRequest` for.
    pub fn cancel_id(&self, seq: RequestSeq) -> (r: Option<i64>)
        requires
            self.wf(),
        ensures
            match r {
                Some(id) => self.requests().contains_key(id) && spec_kind_seq(self.requests()[id]) == Some(seq),
                None => forall|id: i64| #[trigger]
                    self.requests().contains_key(id) ==> spec_kind_seq(self.requests()[id]) != Some(seq),
            },
    {
        broadcast use vstd::std_specs::hash::group_hash_axioms;

        let ghost m = self.pending@;
        for entry in it: self.pending.iter()
            invariant
                self.wf(),
                m == self.pending@,
                it.seq() == spec_hash_map_iter(&self.pending).remaining(),
                forall|j: int|
                    0 <= j < it.index() ==> spec_kind_seq(*#[trigger] it.seq()[j].1) != Some(seq),
        {
            let (id, kind) = entry;
            if pending_kind_seq(*kind) == Some(seq) {
                return Some(*id);
            }
        }
        proof {
            let v = spec_hash_map_iter(&self.pending).remaining();
            assert forall|id: i64| #[trigger] self.requests().contains_key(id) implies spec_kind_seq(
                self.requests()[id],
            ) != Some(seq) by {
                assert(v.contains((&id, &m[id])));
                let j = choose|j: int| 0 <= j < v.len() && v[j] == (&id, &m[id]);
                assert(spec_kind_seq(*v[j].1) != Some(seq));
            }
        }
        None
    }

    /// A response arrived with `id`: the request it answers, which is no
    /// longer outstanding; none for a string id or an id nothing is
    /// waiting on.
    pub fn settle_response(&mut self, id: &RequestId) -> (r: Option<PendingKind>)
        requires
            old(self).wf(),
        ensures
            final(self).wf(),
            final(self).spec_next_id() == old(self).spec_next_id(),
            final(self).batches() == old(self).batches(),
            match id {
                RequestId::Number(n) => {
                    &&& r == (if old(self).requests().contains_key(*n) {
                        Some(old(self).requests()[*n])
                    } else {
                        None::<PendingKind>
                    })
                    &&& final(self).requests() == old(self).requests().remove(*n)
                },
                RequestId::String(_) => r is None && final(self).requests() == old(self).requests(),
            },
    {
        let n = match id {
            RequestId::Number(n) => *n,
            RequestId::String(_) => {
                return None;
            },
        };
        broadcast use vstd::std_specs::hash::group_hash_axioms;

        self.pending.remove(&n)
    }
}

/// What becomes of a response to a request of kind `kind`.
#[derive(Debug, PartialEq, Eq)]
pub enum ResponseOutcome {
    /// The server answered with an error: tell the editor, for a request
    /// it numbered.
    RequestError { seq: RequestSeq, message: String },
    /// Decode the result for the editor as `kind` asks.
    Deliver(PendingKind),
    /// Nothing reaches the editor.
    Drop,
}

/// Route a response: an error goes back to the editor when the request
/// carries its number; a result is delivered for every kind but the
/// handshake, `shutdown` and `executeCommand` (which has no payload).
pub fn response_outcome(kind: PendingKind, error: Option<ResponseError>) -> (o: ResponseOutcome)
    ensures
        match error {
            Some(e) => match spec_kind_seq(kind) {
                Some(seq) => o == ResponseOutcome::RequestError { seq, message: e.message },
                None => o == ResponseOutcome::Drop,
            },
            None => match kind {
                PendingKind::ExecuteCommand(_) | PendingKind::Initialize | PendingKind::Shutdown => o
                    == ResponseOutcome::Drop,
                _ => o == ResponseOutcome::Deliver(kind),
            },
        },
{
    match error {
        Some(e) => match pending_kind_seq(kind) {
            Some(seq) => ResponseOutcome::RequestError { seq, message: e.message },
            None => ResponseOutcome::Drop,
        },
        None => match kind {
            PendingKind::ExecuteCommand(_) | PendingKind::Initialize | PendingKind::Shutdown => {
                ResponseOutcome::Drop
            },
            _ => ResponseOutcome::Deliver(kind),
        },
    }
}

/// The id under which the `initialize` request goes out.
pub const INITIALIZE_REQUEST_ID: i64 = 0;

/// How long the handshake waits for the answer to `initialize`.
pub const INITIALIZE_TIMEOUT_MS: u64 = 5000;

/// Where the handshake stands after one inbound message.
#[derive(Debug, PartialEq, Eq)]
pub enum HandshakeStep {
    /// The server answered `initialize`: read its capabilities and send
    /// `initialized`.
    Ready,
    /// The server refused `initialize`, with this message.
    Failed(String),
    /// Anything else (a request, a notification, a stray response) is
    /// skipped while the handshake waits.
    Wait,
}

/// The handshake's reading of one inbound message. `response_id` is the id
/// of a response and `None` for a request or a notification; `error` is the
/// response's error member.
pub fn handshake_step(response_id: Option<&RequestId>, error: Option<ResponseError>) -> (s:
    HandshakeStep)
    ensures
        match response_id {
            Some(id) if *id == RequestId::Number(INITIALIZE_REQUEST_ID) => match error {
                Some(e) => s == HandshakeStep::Failed(e.message),
                None => s == HandshakeStep::Ready,
            },
            _ => s == HandshakeStep::Wait,
        },
{
    match response_id {
        Some(RequestId::Number(n)) => {
            if *n == INITIALIZE_REQUEST_ID {
                match error {
                    Some(e) => HandshakeStep::Failed(e.message),
                    None => HandshakeStep::Ready,
                }
            } else {
                HandshakeStep::Wait
            }
        },
        _ => HandshakeStep::Wait,
    }
}

/// How a request from the server is answered.
#[derive(Debug)]
pub enum ServerReply {
    /// `workspace/applyEdit`: hand the edit to the editor and answer
    /// `{"applied": true}` right away.
    Applied,
    /// `window/workDoneProgress/create`: acknowledged with a null result.
    Acknowledged,
    /// Anything else is refused, so the server does not wait forever.
    Refused(ResponseError),
}

/// The answer to a server request for `method`.
pub fn reply_to_server_request(method: &str) -> (r: ServerReply)
    ensures
        method@ == "workspace/applyEdit"@ ==> r is Applied,
        method@ == "window/workDoneProgress/create"@ ==> r is Acknowledged,
        method@ != "workspace/applyEdit"@ && method@ != "window/workDoneProgress/create"@ ==> (
        r matches ServerReply::Refused(e) && e.code == -32601 && e.message@ == "rizz_lsp: method `"@
            + method@ + "` not implemented"@),
{
    proof {
        reveal_strlit("workspace/applyEdit");
        reveal_strlit("window/workDoneProgress/create");
        assert("workspace/applyEdit"@.len() != "window/workDoneProgress/create"@.len());
    }
    if str_eq(method, "workspace/applyEdit") {
        ServerReply::Applied
    } else if str_eq(method, "window/workDoneProgress/create") {
        ServerReply::Acknowledged
    } else {
        let mut message = "rizz_lsp: method `".to_owned();
        message.append(method);
        message.append("` not implemented");
        ServerReply::Refused(ResponseError { code: -32601, message })
    }
}

/// What a notification from the server is for.
#[derive(Debug, Clone, Copy, PartialEq, Eq, Structural)]
pub enum NotificationKind {
    /// `textDocument/publishDiagnostics`.
    Diagnostics,
    /// `window/showMessage` or `window/logMessage`: surfaced as a notice.
    Message,
    /// Anything else.
    Ignored,
}

pub fn notification_kind(method: &str) -> (k: NotificationKind)
    ensures
        k == (if method@ == "textDocument/publishDiagnostics"@ {
            NotificationKind::Diagnostics
        } else if method@ == "window/showMessage"@ || method@ == "window/logMessage"@ {
            NotificationKind::Message
        } else {
            NotificationKind::Ignored
        }),
{
    if str_eq(method, "textDocument/publishDiagnostics") {
        NotificationKind::Diagnostics
    } else if str_eq(method, "window/showMessage") || str_eq(method, "window/logMessage") {
        NotificationKind::Message
    } else {
        NotificationKind::Ignored
    }
}

/// `parts` joined with a blank line between them.
pub open spec fn spec_join_paragraphs(parts: Seq<Seq<char>>) -> Seq<char>
    decreases parts.len(),
{
    if parts.len() == 0 {
        Seq::empty()
    } else if parts.len() == 1 {
        parts[0]
    } else {
        spec_join_paragraphs(parts.drop_last()) + "\n\n"@ + parts.last()
    }
}

/// Hover contents as text: the parts of a hover (its marked strings or its
/// markup), joined with a blank line between them.
pub fn render_hover(parts: &Vec<String>) -> (s: String)
    ensures
        s@ == spec_join_paragraphs(parts@.map_values(|p: String| p@)),
{
    let ghost ps = parts@.map_values(|p: String| p@);
    let mut s = String::new();
    let mut i: usize = 0;
    while i < parts.len()
        invariant
            ps == parts@.map_values(|p: String| p@),
            i <= parts@.len(),
            s@ == spec_join_paragraphs(ps.take(i as int)),
        decreases parts@.len() - i,
    {
        proof {
            assert(ps.take(i + 1).drop_last() =~= ps.take(i as int));
            assert(ps.take(i + 1).last() == parts@[i as int]@);
        }
        if i > 0 {
            s.append("\n\n");
        } else {
            assert(ps.take(0) =~= Seq::<Seq<char>>::empty());
        }
        s.append(parts[i].as_str());
        i = i + 1;
    }
    assert(ps.take(i as int) =~= ps);
    s
}

/// A response is routed to the request sent under its id: a request is
/// recorded under the next id, which no outstanding request holds, so the
/// response carrying that id yields exactly that request and leaves the
/// other outstanding requests as they were.
pub proof fn law_response_finds_its_request(m: Map<i64, PendingKind>, next: i64, kind: PendingKind)
    requires
        forall|id: i64| #[trigger] m.contains_key(id) ==> id < next,
    ensures
        !m.contains_key(next),
        m.insert(next, kind).contains_key(next),
        m.insert(next, kind)[next] == kind,
        m.insert(next, kind).remove(next) == m,
{
    assert(m.insert(next, kind).remove(next) =~= m);
}

/// Changes queued for one document accumulate until the flush: the batch
/// carries the latest version and every change in the order queued.
pub proof fn law_changes_accumulate(
    m: Map<Seq<char>, (i32, Seq<ChangeEvent>)>,
    uri: Seq<char>,
    v1: i32,
    a: Seq<ChangeEvent>,
    v2: i32,
    b: Seq<ChangeEvent>,
)
    requires
        !m.contains_key(uri),
    ensures
        ({
            let m1 = m.insert(uri, (v1, a));
            let m2 = m1.insert(uri, (v2, m1[uri].1 + b));
            m2.contains_key(uri) && m2[uri] == (v2, a + b) && m2.remove(uri) == m
        }),
{
    let m1 = m.insert(uri, (v1, a));
    let m2 = m1.insert(uri, (v2, m1[uri].1 + b));
    assert(m2.remove(uri) =~= m);
}

/// A command the runtime sends into a client task; `A` is the type of an
/// `executeCommand` argument.
#[derive(Debug)]
pub enum ClientCmd<A> {
    DidOpen { uri: String, language_id: String, version: i32, text: String },
    DidChange { uri: String, version: i32, changes: Vec<ChangeEvent> },
    DidClose { uri: String },
    Hover { seq: RequestSeq, uri: String, position: LspPosition },
    GotoDefinition { seq: RequestSeq, uri: String, position: LspPosition },
    Completion { seq: RequestSeq, uri: String, position: LspPosition },
    Format { seq: RequestSeq, uri: String, tab_size: u32, insert_spaces: bool },
    CodeAction { seq: RequestSeq, uri: String, range: LspRange },
    ExecuteCommand { seq: RequestSeq, command: String, arguments: Vec<A> },
    Cancel { seq: RequestSeq },
    Shutdown,
}

/// The request kind and number a command sends, if it is a request.
pub open spec fn spec_cmd_request<A>(cmd: ClientCmd<A>) -> Option<(RequestKind, RequestSeq)> {
    match cmd {
        ClientCmd::Hover { seq, .. } => Some((RequestKind::Hover, seq)),
        ClientCmd::GotoDefinition { seq, .. } => Some((RequestKind::GotoDefinition, seq)),
        ClientCmd::Completion { seq, .. } => Some((RequestKind::Completion, seq)),
        ClientCmd::Format { seq, .. } => Some((RequestKind::Format, seq)),
        ClientCmd::CodeAction { seq, .. } => Some((RequestKind::CodeAction, seq)),
        ClientCmd::ExecuteCommand { seq, .. } => Some((RequestKind::ExecuteCommand, seq)),
        _ => None,
    }
}

/// What a command makes the client send, after the flushed changes.
#[derive(Debug)]
pub enum Outgoing<A> {
    /// `textDocument/didOpen`.
    DidOpen { uri: String, language_id: String, version: i32, text: String },
    /// `textDocument/didClose`.
    DidClose { uri: String },
    /// The request `cmd` under JSON-RPC id `id`.
    Request { id: i64, cmd: ClientCmd<A> },
    /// `$/cancelRequest` for the request sent under `id`.
    CancelRequest { id: i64 },
    /// Nothing right now.
    Nothing,
}

/// Handle one command from the runtime (all but `Shutdown`, which the main
/// loop handles): opening and closing documents go straight out (closing
/// drops the document's queued changes), changes are queued, requests get
/// a fresh id (with the queued changes flushed first, except before
/// `executeCommand`), and a cancel names the id of the request numbered
/// `seq` if one is outstanding.
pub fn handle_cmd<A>(state: &mut ClientState, cmd: ClientCmd<A>) -> (r: (
    Vec<(String, PendingChange)>,
    Outgoing<A>,
))
    requires
        old(state).wf(),
        old(state).spec_next_id() < i64::MAX,
        !(cmd is Shutdown),
    ensures
        final(state).wf(),
        match spec_cmd_request(cmd) {
            Some((kind, seq)) => {
                let id = old(state).spec_next_id();
                &&& (r.1 matches Outgoing::Request { id: i, cmd: c } && i == id && c == cmd)
                &&& final(state).spec_next_id() == id + 1
                &&& final(state).requests() == old(state).requests().insert(id, spec_pending(kind, seq))
                &&& kind == RequestKind::ExecuteCommand ==> r.0@.len() == 0 && final(state).batches()
                    == old(state).batches()
                &&& kind != RequestKind::ExecuteCommand ==> pairs_map(batch_view(r.0@)) == old(
                    state,
                ).batches() && keys_distinct(batch_view(r.0@)) && final(state).batches() == Map::<
                    Seq<char>,
                    (i32, Seq<ChangeEvent>),
                >::empty()
            },
            None => {
                &&& r.0@.len() == 0
                &&& final(state).spec_next_id() == old(state).spec_next_id()
                &&& final(state).requests() == old(state).requests()
                &&& match cmd {
                    ClientCmd::DidOpen { uri, language_id, version, text } => {
                        &&& (r.1 matches Outgoing::DidOpen { uri: u, language_id: l, version: v, text: t }
                            && u == uri && l == language_id && v == version && t == text)
                        &&& final(state).batches() == old(state).batches()
                    },
                    ClientCmd::DidChange { uri, version, changes } => {
                        &&& r.1 is Nothing
                        &&& final(state).batches() == old(state).batches().insert(
                            uri@,
                            (
                                version,
                                if old(state).batches().contains_key(uri@) {
                                    old(state).batches()[uri@].1 + changes@
                                } else {
                                    changes@
                                },
                            ),
                        )
                    },
                    ClientCmd::DidClose { uri } => {
                        &&& (r.1 matches Outgoing::DidClose { uri: u } && u == uri)
                        &&& final(state).batches() == old(state).batches().remove(uri@)
                    },
                    ClientCmd::Cancel { seq } => {
                        &&& final(state).batches() == old(state).batches()
                        &&& match r.1 {
                            Outgoing::CancelRequest { id } => old(state).requests().contains_key(id)
                                && spec_kind_seq(old(state).requests()[id]) == Some(seq),
                            Outgoing::Nothing => forall|id: i64| #[trigger]
                                old(state).requests().contains_key(id) ==> spec_kind_seq(
                                    old(state).requests()[id],
                                ) != Some(seq),
                            _ => false,
                        }
                    },
                    _ => false,
                }
            },
        },
{
    let request = match &cmd {
        ClientCmd::Hover { seq, .. } => Some((RequestKind::Hover, *seq)),
        ClientCmd::GotoDefinition { seq, .. } => Some((RequestKind::GotoDefinition, *seq)),
        ClientCmd::Completion { seq, .. } => Some((RequestKind::Completion, *seq)),
        ClientCmd::Format { seq, .. } => Some((RequestKind::Format, *seq)),
        ClientCmd::CodeAction { seq, .. } => Some((RequestKind::CodeAction, *seq)),
        ClientCmd::ExecuteCommand { seq, .. } => Some((RequestKind::ExecuteCommand, *seq)),
        _ => None,
    };
    match request {
        Some((kind, seq)) => {
            let (flushed, id) = state.start_request(kind, seq);
            (flushed, Outgoing::Request { id, cmd })
        },
        None => match cmd {
            ClientCmd::DidOpen { uri, language_id, version, text } => (
                Vec::new(),
                Outgoing::DidOpen { uri, language_id, version, text },
            ),
            ClientCmd::DidChange { uri, version, changes } => {
                state.queue_change(uri, version, changes);
                (Vec::new(), Outgoing::Nothing)
            },
            ClientCmd::DidClose { uri } => {
                state.close_document(uri.as_str());
                (Vec::new(), Outgoing::DidClose { uri })
            },
            ClientCmd::Cancel { seq } => match state.cancel_id(seq) {
                Some(id) => (Vec::new(), Outgoing::CancelRequest { id }),
                None => (Vec::new(), Outgoing::Nothing),
            },
            _ => (Vec::new(), Outgoing::Nothing),
        },
    }
}

} // verus!

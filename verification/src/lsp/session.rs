//! The editor's side of LSP requests: each hover, definition, completion,
//! format or code-action request is numbered and remembered with what its
//! answer is for, and each answer is matched back to it. An answer nothing
//! waits for (unknown number, or a number waiting for another kind of
//! answer) is dropped; a format answer that arrives after its deadline is
//! dropped with a notice.

use vstd::prelude::*;

use std::collections::HashMap;

use vstd::std_specs::hash::{builds_valid_hashers, obeys_key_model};
use crate::lsp::client::RequestSeq;
use crate::text::buffer::FilePos;
use vstd::string::StrSliceExecFns;

verus! {

/// How long a format request may take before its answer is dropped.
pub const LSP_FORMAT_TIMEOUT_MS: u64 = 2000;

/// When a format answer stops being applied: the timeout after `now_ms`,
/// saturated at the clock's last value.
pub open spec fn format_deadline(now_ms: u64) -> u64 {
    if now_ms + LSP_FORMAT_TIMEOUT_MS > u64::MAX {
        u64::MAX
    } else {
        (now_ms + LSP_FORMAT_TIMEOUT_MS) as u64
    }
}

/// What an outstanding request was sent for, in buffer `B`.
#[derive(Debug, Clone, Copy, PartialEq, Eq, Structural)]
pub enum PendingLspKind<B> {
    /// Hover at `anchor`.
    Hover { buf: B, anchor: FilePos },
    GotoDefinition { buf: B },
    /// Completion at `anchor`.
    Completion { buf: B, anchor: FilePos },
    /// Formatting, whose answer is only applied up to `deadline_ms`.
    Format { buf: B, deadline_ms: u64 },
    CodeAction { buf: B },
}

/// An answer from a language server, reduced to what matching it needs.
#[derive(Debug, Clone, PartialEq, Eq)]
pub enum LspAnswer {
    /// Hover text, none when the server had nothing to show.
    Hover { seq: RequestSeq, contents: Option<String> },
    Definition { seq: RequestSeq },
    Completion { seq: RequestSeq },
    /// Formatting edits, received at `now_ms`.
    Format { seq: RequestSeq, now_ms: u64 },
    CodeAction { seq: RequestSeq },
    /// The request failed on the server's side.
    RequestError { seq: RequestSeq },
}

/// What the editor does with an answer.
#[derive(Debug, Clone, PartialEq, Eq)]
pub enum AnswerAction<B> {
    /// Show `contents` as a hover at `anchor`.
    ShowHover { contents: String, anchor: FilePos },
    /// Show the definitions (an empty list says there is none).
    ShowDefinitions,
    /// Offer the completion items at `anchor`.
    ShowCompletion { anchor: FilePos },
    /// Apply the formatting edits to `buf`.
    ApplyFormat { buf: B },
    /// The formatting answer came too late; tell the user
    /// [`format_timeout_notice`].
    FormatTimedOut,
    /// Offer the code actions.
    ShowCodeActions,
    /// Nothing to do.
    Nothing,
}

/// The sequence number of an answer.
pub open spec fn answer_seq(a: LspAnswer) -> RequestSeq {
    match a {
        LspAnswer::Hover { seq, .. } | LspAnswer::Definition { seq } | LspAnswer::Completion { seq }
        | LspAnswer::Format { seq, .. } | LspAnswer::CodeAction { seq } | LspAnswer::RequestError {
            seq,
        } => seq,
    }
}

/// What to do with answer `a` to the request that was waiting as `kind`
/// (none when nothing was).
pub open spec fn spec_answer_action<B>(kind: Option<PendingLspKind<B>>, a: LspAnswer) -> AnswerAction<B> {
    match (a, kind) {
        (LspAnswer::Hover { contents, .. }, Some(PendingLspKind::Hover { anchor, .. })) => match contents {
            Some(c) if c@.len() > 0 => AnswerAction::ShowHover { contents: c, anchor },
            _ => AnswerAction::Nothing,
        },
        (LspAnswer::Definition { .. }, Some(_)) => AnswerAction::ShowDefinitions,
        (LspAnswer::Completion { .. }, Some(PendingLspKind::Completion { anchor, .. })) => {
            AnswerAction::ShowCompletion { anchor }
        },
        (LspAnswer::Format { now_ms, .. }, Some(PendingLspKind::Format { buf, deadline_ms })) => {
            if now_ms > deadline_ms {
                AnswerAction::FormatTimedOut
            } else {
                AnswerAction::ApplyFormat { buf }
            }
        },
        (LspAnswer::CodeAction { .. }, Some(_)) => AnswerAction::ShowCodeActions,
        _ => AnswerAction::Nothing,
    }
}

/// The notice for a formatting answer that came too late.
pub fn format_timeout_notice() -> (s: String)
    ensures
        s@ == "lsp format: timed out"@,
{
    "lsp format: timed out".to_owned()
}

/// The outstanding requests of one editor session, and the number the next
/// one gets.
#[derive(Debug)]
pub struct LspSession<B> {
    pending: HashMap<RequestSeq, PendingLspKind<B>>,
    next_seq: RequestSeq,
}

impl<B> LspSession<B> {
    /// The outstanding requests by number.
    pub closed spec fn requests(&self) -> Map<RequestSeq, PendingLspKind<B>> {
        self.pending@
    }

    /// The number the next request gets.
    pub closed spec fn spec_next_seq(&self) -> RequestSeq {
        self.next_seq
    }

    /// The table behaves as a map of numbers.
    pub closed spec fn wf(&self) -> bool {
        &&& obeys_key_model::<RequestSeq>()
        &&& builds_valid_hashers::<std::collections::hash_map::RandomState>()
    }

    /// A session with nothing outstanding; numbering starts at 1.
    pub fn new() -> (s: Self)
        ensures
            s.wf(),
            s.spec_next_seq() == 1,
            s.requests() == Map::<RequestSeq, PendingLspKind<B>>::empty(),
    {
        broadcast use vstd::std_specs::hash::group_hash_axioms;

        LspSession { pending: HashMap::new(), next_seq: 1 }
    }

    /// Hand out the next number; the counter wraps past the largest.
    pub fn alloc_seq(&mut self) -> (s: RequestSeq)
        ensures
            s == old(self).spec_next_seq(),
            final(self).spec_next_seq() == (if s == u64::MAX {
                0
            } else {
                (s + 1) as u64
            }),
            final(self).requests() == old(self).requests(),
            final(self).wf() == old(self).wf(),
    {
        let s = self.next_seq;
        self.next_seq = self.next_seq.wrapping_add(1);
        s
    }

    /// Wait for the answer to request `seq`, sent for `kind` (replacing
    /// whatever waited under that number).
    pub fn track(&mut self, seq: RequestSeq, kind: PendingLspKind<B>)
        requires
            old(self).wf(),
        ensures
            final(self).wf(),
            final(self).spec_next_seq() == old(self).spec_next_seq(),
            final(self).requests() == old(self).requests().insert(seq, kind),
    {
        self.pending.insert(seq, kind);
    }

    /// Number a format request for `buf` sent at `now_ms` and wait for its
    /// answer until the format deadline.
    pub fn track_format(&mut self, buf: B, now_ms: u64) -> (seq: RequestSeq)
        requires
            old(self).wf(),
        ensures
            final(self).wf(),
            seq == old(self).spec_next_seq(),
            final(self).spec_next_seq() == (if seq == u64::MAX {
                0
            } else {
                (seq + 1) as u64
            }),
            final(self).requests() == old(self).requests().insert(
                seq,
                PendingLspKind::Format { buf, deadline_ms: format_deadline(now_ms) },
            ),
    {
        let seq = self.alloc_seq();
        let deadline_ms = now_ms.saturating_add(LSP_FORMAT_TIMEOUT_MS);
        self.track(seq, PendingLspKind::Format { buf, deadline_ms });
        seq
    }

    /// Stop waiting for `seq`: what it waited as, if anything.
    pub fn take(&mut self, seq: RequestSeq) -> (r: Option<PendingLspKind<B>>)
        requires
            old(self).wf(),
        ensures
            final(self).wf(),
            final(self).spec_next_seq() == old(self).spec_next_seq(),
            r == (if old(self).requests().contains_key(seq) {
                Some(old(self).requests()[seq])
            } else {
                None::<PendingLspKind<B>>
            }),
            final(self).requests() == old(self).requests().remove(seq),
    {
        broadcast use vstd::std_specs::hash::group_hash_axioms;

        self.pending.remove(&seq)
    }

    /// Whether an answer to `seq` is awaited.
    pub fn is_pending(&self, seq: RequestSeq) -> (b: bool)
        requires
            self.wf(),
        ensures
            b == self.requests().contains_key(seq),
    {
        broadcast use vstd::std_specs::hash::group_hash_axioms;

        self.pending.contains_key(&seq)
    }

    /// Match answer `a` to its request: the request no longer waits (an
    /// answer of another kind still uses up its number), and the action is
    /// what [`spec_answer_action`] gives.
    pub fn settle(&mut self, a: LspAnswer) -> (act: AnswerAction<B>)
        requires
            old(self).wf(),
        ensures
            final(self).wf(),
            final(self).spec_next_seq() == old(self).spec_next_seq(),
            final(self).requests() == old(self).requests().remove(answer_seq(a)),
            act == spec_answer_action(
                if old(self).requests().contains_key(answer_seq(a)) {
                    Some(old(self).requests()[answer_seq(a)])
                } else {
                    None::<PendingLspKind<B>>
                },
                a,
            ),
    {
        let seq = match &a {
            LspAnswer::Hover { seq, .. } | LspAnswer::Definition { seq } | LspAnswer::Completion {
                seq,
            } | LspAnswer::Format { seq, .. } | LspAnswer::CodeAction { seq } | LspAnswer::RequestError {
                seq,
            } => *seq,
        };
        let kind = self.take(seq);
        match (a, kind) {
            (LspAnswer::Hover { contents, .. }, Some(PendingLspKind::Hover { anchor, .. })) => {
                match contents {
                    Some(c) => if c.as_str().unicode_len() > 0 {
                        AnswerAction::ShowHover { contents: c, anchor }
                    } else {
                        AnswerAction::Nothing
                    },
                    None => AnswerAction::Nothing,
                }
            },
            (LspAnswer::Definition { .. }, Some(_)) => AnswerAction::ShowDefinitions,
            (LspAnswer::Completion { .. }, Some(PendingLspKind::Completion { anchor, .. })) => {
                AnswerAction::ShowCompletion { anchor }
            },
            (LspAnswer::Format { now_ms, .. }, Some(PendingLspKind::Format { buf, deadline_ms })) => {
                if now_ms > deadline_ms {
                    AnswerAction::FormatTimedOut
                } else {
                    AnswerAction::ApplyFormat { buf }
                }
            },
            (LspAnswer::CodeAction { .. }, Some(_)) => AnswerAction::ShowCodeActions,
            _ => AnswerAction::Nothing,
        }
    }
}


/// An answer is acted on at most once: once a number is settled nothing
/// waits under it any more, and a later answer under that number does
/// nothing.
pub proof fn law_answer_settles_once<B>(
    requests: Map<RequestSeq, PendingLspKind<B>>,
    first: LspAnswer,
    later: LspAnswer,
)
    requires
        answer_seq(first) == answer_seq(later),
    ensures
        !requests.remove(answer_seq(first)).contains_key(answer_seq(later)),
        spec_answer_action::<B>(None, later) == AnswerAction::<B>::Nothing,
{
}

} // verus!

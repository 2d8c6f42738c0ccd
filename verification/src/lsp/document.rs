//! Per-document LSP state on the editor side: the document's URI, language
//! id, version counter and diagnostics, and the notifications its edits
//! turn into. Edits are converted to LSP coordinates here; sending the
//! notifications is the caller's work.

use vstd::prelude::*;

use ropey::Rope;

use crate::lsp::position::{
    advance_fits, advance_in_range, advance_position, byte_to_lsp, spec_advance, spec_byte_to_lsp,
    Encoding, LspPosition,
};
use crate::lsp::registry::LspClientId;
use crate::text::rope::{
    char_to_byte, char_to_line, len_chars, line_to_byte, rope_chars, rope_line_of, rope_line_start,
    rope_to_string, seq_utf8_len,
};

verus! {

/// An LSP range: from `start` up to `end`.
#[derive(Debug, Clone, Copy, PartialEq, Eq, Structural)]
pub struct LspRange {
    pub start: LspPosition,
    pub end: LspPosition,
}

/// One content change of a `didChange`: the replaced range (none for the
/// whole document) and the new text.
#[derive(Debug, Clone)]
pub struct ChangeEvent {
    pub range: Option<LspRange>,
    pub text: String,
}

/// A document notification to send to the client serving it.
#[derive(Debug)]
pub enum DocumentCmd {
    /// `textDocument/didOpen` with this version and text.
    DidOpen { client: LspClientId, uri: String, language_id: String, version: i32, text: String },
    /// An incremental change, which the client task debounces into
    /// `textDocument/didChange`.
    DidChange { client: LspClientId, uri: String, version: i32, changes: Vec<ChangeEvent> },
    /// `textDocument/didClose`.
    DidClose { client: LspClientId, uri: String },
}

/// The LSP position where an edit at char `at_char` of `s` starts: its
/// line, and its byte column on that line in `enc`'s code units.
pub open spec fn edit_start(s: Seq<char>, at_char: int, enc: Encoding) -> LspPosition {
    let row = rope_line_of(s, at_char);
    let col = seq_utf8_len(s.take(at_char)) - seq_utf8_len(s.take(rope_line_start(s, row)));
    spec_byte_to_lsp(s, row, col, enc)
}

/// The LSP range an edit at `at_char` that removed `removed` covered: from
/// the edit point to where the removed text would end.
pub open spec fn edit_range(s: Seq<char>, at_char: int, removed: Seq<char>, enc: Encoding) -> LspRange {
    let start = edit_start(s, at_char, enc);
    let end = spec_advance(start.line as int, start.character as int, removed, enc);
    LspRange { start, end: LspPosition { line: end.0 as u32, character: end.1 as u32 } }
}

impl<D> LspBufferAttachment<D> {
    /// An edit at `at_char` removing `removed` can be recorded: the edit
    /// point is in the text, the version can go up, and the change's
    /// positions fit LSP's 32-bit fields.
    pub open spec fn edit_fits(self, s: Seq<char>, at_char: int, removed: Seq<char>) -> bool {
        &&& 0 <= at_char <= s.len()
        &&& self.spec_version() < i32::MAX
        &&& advance_fits(edit_start(s, at_char, self.spec_encoding()), removed, self.spec_encoding())
    }

    /// `after` and `cmd` are what recording the edit gives: the version up
    /// by one and a change over the removed text's LSP range.
    pub open spec fn records_edit(
        before: Self,
        after: Self,
        cmd: DocumentCmd,
        s: Seq<char>,
        at_char: int,
        removed: Seq<char>,
        inserted: Seq<char>,
    ) -> bool {
        &&& after.same_document(before)
        &&& after.spec_version() == before.spec_version() + 1
        &&& after.spec_diagnostics() == before.spec_diagnostics()
        &&& after.spec_diagnostics_gen() == before.spec_diagnostics_gen()
        &&& cmd matches DocumentCmd::DidChange { client, uri, version, changes }
        &&& client == before.spec_client()
        &&& uri@ == before.spec_uri()
        &&& version == before.spec_version() + 1
        &&& changes@.len() == 1
        &&& changes@[0].range == Some(edit_range(s, at_char, removed, before.spec_encoding()))
        &&& changes@[0].text@ == inserted
    }
}

/// The LSP state of one open document.
#[derive(Debug)]
pub struct LspBufferAttachment<D> {
    client: LspClientId,
    uri: String,
    language_id: String,
    encoding: Encoding,
    version: i32,
    diagnostics: Vec<D>,
    diagnostics_gen: u64,
}

impl<D> LspBufferAttachment<D> {
    pub closed spec fn spec_client(&self) -> LspClientId {
        self.client
    }

    pub closed spec fn spec_uri(&self) -> Seq<char> {
        self.uri@
    }

    pub closed spec fn spec_language_id(&self) -> Seq<char> {
        self.language_id@
    }

    pub closed spec fn spec_encoding(&self) -> Encoding {
        self.encoding
    }

    pub closed spec fn spec_version(&self) -> i32 {
        self.version
    }

    pub closed spec fn spec_diagnostics(&self) -> Seq<D> {
        self.diagnostics@
    }

    pub closed spec fn spec_diagnostics_gen(&self) -> u64 {
        self.diagnostics_gen
    }

    /// Identity unchanged: same client, URI, language and encoding.
    pub open spec fn same_document(&self, other: Self) -> bool {
        &&& self.spec_client() == other.spec_client()
        &&& self.spec_uri() == other.spec_uri()
        &&& self.spec_language_id() == other.spec_language_id()
        &&& self.spec_encoding() == other.spec_encoding()
    }

    pub fn new(client: LspClientId, uri: String, language_id: String, encoding: Encoding) -> (a: Self)
        ensures
            a.spec_client() == client,
            a.spec_uri() == uri@,
            a.spec_language_id() == language_id@,
            a.spec_encoding() == encoding,
            a.spec_version() == 0,
            a.spec_diagnostics().len() == 0,
            a.spec_diagnostics_gen() == 0,
    {
        LspBufferAttachment {
            client,
            uri,
            language_id,
            encoding,
            version: 0,
            diagnostics: Vec::new(),
            diagnostics_gen: 0,
        }
    }

    pub fn client(&self) -> (c: LspClientId)
        ensures
            c == self.spec_client(),
    {
        self.client
    }

    pub fn uri(&self) -> (u: &str)
        ensures
            u@ == self.spec_uri(),
    {
        self.uri.as_str()
    }

    pub fn encoding(&self) -> (e: Encoding)
        ensures
            e == self.spec_encoding(),
    {
        self.encoding
    }

    pub fn version(&self) -> (v: i32)
        ensures
            v == self.spec_version(),
    {
        self.version
    }

    /// Open the document: version 1, the whole text sent.
    pub fn did_open(&mut self, rope: &Rope) -> (cmd: DocumentCmd)
        ensures
            final(self).same_document(*old(self)),
            final(self).spec_version() == 1,
            final(self).spec_diagnostics() == old(self).spec_diagnostics(),
            final(self).spec_diagnostics_gen() == old(self).spec_diagnostics_gen(),
            cmd matches DocumentCmd::DidOpen { client, uri, language_id, version, text } && client
                == old(self).spec_client() && uri@ == old(self).spec_uri() && language_id@ == old(
                self,
            ).spec_language_id() && version == 1 && text@ == rope_chars(*rope),
    {
        self.version = 1;
        DocumentCmd::DidOpen {
            client: self.client,
            uri: self.uri.clone(),
            language_id: self.language_id.clone(),
            version: self.version,
            text: rope_to_string(rope),
        }
    }

    /// An edit at char `at_char` that replaced `removed` with `inserted`,
    /// `rope` holding the text before the edit: the version goes up by one
    /// and the change covers the removed text's LSP range.
    pub fn record_edit(&mut self, at_char: usize, removed: &str, inserted: &str, rope: &Rope) -> (cmd:
        DocumentCmd)
        requires
            old(self).edit_fits(rope_chars(*rope), at_char as int, removed@),
        ensures
            Self::records_edit(
                *old(self),
                *final(self),
                cmd,
                rope_chars(*rope),
                at_char as int,
                removed@,
                inserted@,
            ),
    {
        let ghost s = rope_chars(*rope);
        let row = char_to_line(rope, at_char);
        let line_start_byte = line_to_byte(rope, row);
        let start_byte_in_rope = char_to_byte(rope, at_char);
        proof {
            let ls = rope_line_start(s, row as int);
            crate::text::rope::lemma_seq_utf8_len_subrange(s.take(at_char as int), 0, ls);
            assert(s.take(at_char as int).subrange(0, ls) =~= s.take(ls));
        }
        let start_byte_col = start_byte_in_rope - line_start_byte;
        let start = byte_to_lsp(rope, row, start_byte_col, self.encoding);
        let end = advance_position(start, removed, self.encoding);
        self.version = self.version + 1;
        let range = LspRange { start, end };
        let mut changes: Vec<ChangeEvent> = Vec::new();
        changes.push(ChangeEvent { range: Some(range), text: inserted.to_owned() });
        DocumentCmd::DidChange { client: self.client, uri: self.uri.clone(), version: self.version, changes }
    }

    /// [`LspBufferAttachment::record_edit`] where the edit fits (see
    /// [`LspBufferAttachment::edit_fits`]); otherwise nothing is recorded
    /// and the result is `None`.
    pub fn try_record_edit(&mut self, at_char: usize, removed: &str, inserted: &str, rope: &Rope) -> (r:
        Option<DocumentCmd>)
        ensures
            match r {
                Some(cmd) => {
                    &&& old(self).edit_fits(rope_chars(*rope), at_char as int, removed@)
                    &&& Self::records_edit(
                        *old(self),
                        *final(self),
                        cmd,
                        rope_chars(*rope),
                        at_char as int,
                        removed@,
                        inserted@,
                    )
                },
                None => {
                    &&& !old(self).edit_fits(rope_chars(*rope), at_char as int, removed@)
                    &&& *final(self) == *old(self)
                },
            },
    {
        if at_char > len_chars(rope) || self.version == i32::MAX {
            return None;
        }
        let row = char_to_line(rope, at_char);
        let line_start_byte = line_to_byte(rope, row);
        let start_byte_in_rope = char_to_byte(rope, at_char);
        proof {
            let s = rope_chars(*rope);
            let ls = rope_line_start(s, row as int);
            crate::text::rope::lemma_seq_utf8_len_subrange(s.take(at_char as int), 0, ls);
            assert(s.take(at_char as int).subrange(0, ls) =~= s.take(ls));
        }
        let col = start_byte_in_rope - line_start_byte;
        let start = byte_to_lsp(rope, row, col, self.encoding);
        if !advance_in_range(start, removed, self.encoding) {
            return None;
        }
        Some(self.record_edit(at_char, removed, inserted, rope))
    }

    /// Close the document.
    pub fn did_close(&mut self) -> (cmd: DocumentCmd)
        ensures
            *final(self) == *old(self),
            cmd matches DocumentCmd::DidClose { client, uri } && client == old(self).spec_client()
                && uri@ == old(self).spec_uri(),
    {
        DocumentCmd::DidClose { client: self.client, uri: self.uri.clone() }
    }

    /// The diagnostics last published for the document.
    pub fn diagnostics(&self) -> (d: &[D])
        ensures
            d@ == self.spec_diagnostics(),
    {
        self.diagnostics.as_slice()
    }

    /// Replace the diagnostics; the generation counter goes up by one.
    pub fn replace_diagnostics(&mut self, items: Vec<D>)
        requires
            old(self).spec_diagnostics_gen() < u64::MAX,
        ensures
            final(self).same_document(*old(self)),
            final(self).spec_version() == old(self).spec_version(),
            final(self).spec_diagnostics() == items@,
            final(self).spec_diagnostics_gen() == old(self).spec_diagnostics_gen() + 1,
    {
        self.diagnostics_gen = self.diagnostics_gen + 1;
        self.diagnostics = items;
    }

    /// How many times the diagnostics were replaced.
    pub fn diagnostics_version(&self) -> (g: u64)
        ensures
            g == self.spec_diagnostics_gen(),
    {
        self.diagnostics_gen
    }
}

} // verus!

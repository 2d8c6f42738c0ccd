//! Vim-style named registers.
//!
//! [`Registers`] is the single owner of every register the editor exposes —
//! the unnamed (`"`), yank (`0`), numbered (`1`-`9`), small-delete (`-`),
//! named (`a`-`z`, with `A`-`Z` appending), last-search (`/`),
//! last-command (`:`), last-insert (`.`), and the black-hole (`_`) sinks.
//!
//! Callers use the routing helpers ([`Registers::record_yank`],
//! [`Registers::record_delete`], …) which mirror vim's distribution rules so
//! they only say *what happened*, not *where to file it*. Reads go through
//! [`Registers::read`], which resolves `"`/`@` as aliases for the unnamed
//! register.
//!
//! Every register name that can hold a value is one of the 47 canonical
//! names [`normalize_name`] produces; each has a fixed slot, and slots are
//! laid out in increasing name order.

use vstd::prelude::*;

use crate::strs::{
    char_is_ascii_digit, char_is_ascii_lower, char_is_ascii_upper, is_ascii_digit, is_ascii_lower,
    is_ascii_upper, str_contains_char, string_push,
};

verus! {

/// Whether a register's contents represent a character run, whole lines, or
/// a rectangular block. Paste behavior depends on the kind.
#[derive(Debug, Clone, Copy, PartialEq, Eq, Hash, Structural)]
pub enum RegisterKind {
    Char,
    Line,
    Block,
}

/// A register's stored content — the text plus the kind that drives paste
/// behavior.
#[derive(Debug)]
pub struct RegisterEntry {
    pub text: String,
    pub kind: RegisterKind,
}

/// What a register holds, as plain values: its text and its kind.
pub type EntryView = (Seq<char>, RegisterKind);

impl View for RegisterEntry {
    type V = EntryView;

    open spec fn view(&self) -> EntryView {
        (self.text@, self.kind)
    }
}

impl Clone for RegisterEntry {
    fn clone(&self) -> (r: Self)
        ensures
            r@ == self@,
    {
        RegisterEntry { text: self.text.clone(), kind: self.kind }
    }
}

impl RegisterEntry {
    pub fn new(text: &str, kind: RegisterKind) -> (e: Self)
        ensures
            e@ == (text@, kind),
    {
        RegisterEntry { text: text.to_owned(), kind }
    }

    pub fn charwise(text: &str) -> (e: Self)
        ensures
            e@ == (text@, RegisterKind::Char),
    {
        Self::new(text, RegisterKind::Char)
    }

    pub fn linewise(text: &str) -> (e: Self)
        ensures
            e@ == (text@, RegisterKind::Line),
    {
        Self::new(text, RegisterKind::Line)
    }
}

/// The canonical name used to read/write the unnamed (default) register.
pub const UNNAMED: char = '"';

/// The yank-only register, written on every yank but never on a delete.
pub const YANK: char = '0';

/// The small-delete register — receives charwise deletes that don't cross a
/// newline.
pub const SMALL_DELETE: char = '-';

/// Last successful search pattern.
pub const LAST_SEARCH: char = '/';

/// Last `:`-command typed.
pub const LAST_COMMAND: char = ':';

/// Last inserted text (vim's `.`).
pub const LAST_INSERT: char = '.';

/// Black-hole register — writes are dropped.
pub const BLACK_HOLE: char = '_';

/// Number of canonical register names.
pub const NUM_SLOTS: usize = 47;

/// Canonical register name for an external one, as [`normalize_name`]
/// computes it.
pub open spec fn spec_normalize_name(c: char) -> Option<char> {
    if c == '"' || c == '@' {
        Some(UNNAMED)
    } else if is_ascii_upper(c) {
        Some(((c as u32) + 32) as char)
    } else if is_ascii_lower(c) || is_ascii_digit(c) {
        Some(c)
    } else if c == '-' || c == '/' || c == ':' || c == '.' || c == '_' || c == '%' || c == '#'
        || c == '*' || c == '+' || c == '=' {
        Some(c)
    } else {
        None
    }
}

/// Slot of a canonical register name, in increasing name order; `-1` for
/// any other char.
pub open spec fn slot_of(c: char) -> int {
    if c == '"' {
        0
    } else if c == '#' {
        1
    } else if c == '%' {
        2
    } else if c == '*' {
        3
    } else if c == '+' {
        4
    } else if c == '-' {
        5
    } else if c == '.' {
        6
    } else if c == '/' {
        7
    } else if is_ascii_digit(c) {
        8 + (c as int - '0' as int)
    } else if c == ':' {
        18
    } else if c == '=' {
        19
    } else if c == '_' {
        20
    } else if is_ascii_lower(c) {
        21 + (c as int - 'a' as int)
    } else {
        -1
    }
}

/// The register name stored in slot `i`.
pub open spec fn slot_name(i: int) -> char {
    if i == 0 {
        '"'
    } else if i == 1 {
        '#'
    } else if i == 2 {
        '%'
    } else if i == 3 {
        '*'
    } else if i == 4 {
        '+'
    } else if i == 5 {
        '-'
    } else if i == 6 {
        '.'
    } else if i == 7 {
        '/'
    } else if 8 <= i < 18 {
        (('0' as int) + (i - 8)) as char
    } else if i == 18 {
        ':'
    } else if i == 19 {
        '='
    } else if i == 20 {
        '_'
    } else {
        (('a' as int) + (i - 21)) as char
    }
}

proof fn lemma_slot_name(i: int)
    requires
        0 <= i < NUM_SLOTS,
    ensures
        slot_of(slot_name(i)) == i,
{
}

proof fn lemma_slot_name_increasing(i: int, j: int)
    requires
        0 <= i < j < NUM_SLOTS,
    ensures
        slot_name(i) < slot_name(j),
{
}

proof fn lemma_slot_of_normalized(c: char)
    requires
        spec_normalize_name(c) is Some,
    ensures
        0 <= slot_of(spec_normalize_name(c)->Some_0) < NUM_SLOTS,
{
}

fn slot_index(c: char) -> (r: Option<usize>)
    ensures
        slot_of(c) >= 0 ==> r == Some(slot_of(c) as usize),
        slot_of(c) < 0 ==> r is None,
        slot_of(c) < NUM_SLOTS,
{
    if c == '"' {
        Some(0)
    } else if c == '#' {
        Some(1)
    } else if c == '%' {
        Some(2)
    } else if c == '*' {
        Some(3)
    } else if c == '+' {
        Some(4)
    } else if c == '-' {
        Some(5)
    } else if c == '.' {
        Some(6)
    } else if c == '/' {
        Some(7)
    } else if char_is_ascii_digit(c) {
        Some(8 + (c as u32 - '0' as u32) as usize)
    } else if c == ':' {
        Some(18)
    } else if c == '=' {
        Some(19)
    } else if c == '_' {
        Some(20)
    } else if char_is_ascii_lower(c) {
        Some(21 + (c as u32 - 'a' as u32) as usize)
    } else {
        None
    }
}

fn slot_char(i: usize) -> (c: char)
    requires
        i < NUM_SLOTS,
    ensures
        c == slot_name(i as int),
{
    if i == 0 {
        '"'
    } else if i == 1 {
        '#'
    } else if i == 2 {
        '%'
    } else if i == 3 {
        '*'
    } else if i == 4 {
        '+'
    } else if i == 5 {
        '-'
    } else if i == 6 {
        '.'
    } else if i == 7 {
        '/'
    } else if i < 18 {
        ((i - 8) as u8 + 48u8) as char
    } else if i == 18 {
        ':'
    } else if i == 19 {
        '='
    } else if i == 20 {
        '_'
    } else {
        ((i - 21) as u8 + 97u8) as char
    }
}

/// Map an externally-provided register name to the canonical slot key.
///
/// * `A`-`Z` → lower-case (with `write`'s append semantics layered on top).
/// * `"` and `@` → the unnamed slot.
/// * any other ASCII letter/digit or punctuation register name passes through.
/// * everything else (control chars, multi-byte) → `None`.
pub fn normalize_name(name: char) -> (r: Option<char>)
    ensures
        r == spec_normalize_name(name),
{
    if name == '"' || name == '@' {
        Some(UNNAMED)
    } else if char_is_ascii_upper(name) {
        Some(((name as u8) + 32u8) as char)
    } else if char_is_ascii_lower(name) || char_is_ascii_digit(name) {
        Some(name)
    } else if name == '-' || name == '/' || name == ':' || name == '.' || name == '_' || name
        == '%' || name == '#' || name == '*' || name == '+' || name == '=' {
        Some(name)
    } else {
        None
    }
}

/// What an optional stored entry holds, as plain values.
pub open spec fn opt_view(o: Option<RegisterEntry>) -> Option<EntryView> {
    match o {
        Some(e) => Some(e@),
        None => None,
    }
}

/// What an optional borrowed entry holds, as plain values.
pub open spec fn ref_view(o: Option<&RegisterEntry>) -> Option<EntryView> {
    match o {
        Some(e) => Some(e@),
        None => None,
    }
}

/// The content a read of `name` yields: `"`/`@` alias the unnamed register,
/// upper case reads the lower-case slot, the black hole is always empty.
pub open spec fn spec_read(m: Map<char, EntryView>, name: char) -> Option<EntryView> {
    match spec_normalize_name(name) {
        None => None,
        Some(n) => if n == BLACK_HOLE || !m.contains_key(n) {
            None
        } else {
            Some(m[n])
        },
    }
}

/// `slot` after appending `e`: an existing line-wise register gets a line
/// break between the old and new text unless it already ends in one; the
/// existing kind is kept. An empty slot simply takes `e`.
pub open spec fn spec_append(m: Map<char, EntryView>, slot: char, e: EntryView) -> Map<
    char,
    EntryView,
> {
    if m.contains_key(slot) {
        let ex = m[slot];
        let sep = if ex.1 == RegisterKind::Line && !(ex.0.len() > 0 && ex.0.last() == '\n') {
            seq!['\n']
        } else {
            Seq::<char>::empty()
        };
        m.insert(slot, (ex.0 + sep + e.0, ex.1))
    } else {
        m.insert(slot, e)
    }
}

/// The registers after writing `e` to `name`: unknown names and the black
/// hole leave them unchanged, `A`-`Z` append to the lower-case slot, any
/// other name replaces its slot.
pub open spec fn spec_write(m: Map<char, EntryView>, name: char, e: EntryView) -> Map<
    char,
    EntryView,
> {
    match spec_normalize_name(name) {
        None => m,
        Some(n) => if n == BLACK_HOLE {
            m
        } else if is_ascii_upper(name) {
            spec_append(m, n, e)
        } else {
            m.insert(n, e)
        },
    }
}

/// The numbered registers after a big delete: `e` lands in `1`, `1`-`7`
/// move down to `2`-`8`, and `8` moves to `9` (a `9` with no `8` above it
/// stays where it is).
pub open spec fn spec_rotate(m: Map<char, EntryView>, e: EntryView) -> Map<char, EntryView> {
    Map::new(
        |c: char|
            if c == '1' {
                true
            } else if '2' <= c <= '8' {
                m.contains_key(((c as int) - 1) as char)
            } else if c == '9' {
                m.contains_key('8') || m.contains_key('9')
            } else {
                m.contains_key(c)
            },
        |c: char|
            if c == '1' {
                e
            } else if '2' <= c <= '8' {
                m[((c as int) - 1) as char]
            } else if c == '9' {
                if m.contains_key('8') {
                    m['8']
                } else {
                    m['9']
                }
            } else {
                m[c]
            },
    )
}

/// Charwise text without a line break goes to the small-delete register.
pub open spec fn spec_is_small_delete(e: EntryView) -> bool {
    e.1 == RegisterKind::Char && !e.0.contains('\n')
}

/// The registers after a yank of `e` (`None` for `name` means no explicit
/// target).
pub open spec fn spec_record_yank(m: Map<char, EntryView>, e: EntryView, name: Option<char>) -> Map<
    char,
    EntryView,
> {
    if name == Some(BLACK_HOLE) {
        m
    } else {
        let m1 = m.insert(UNNAMED, e).insert(YANK, e);
        match name {
            Some(n) => spec_write(m1, n, e),
            None => m1,
        }
    }
}

/// The registers after a delete of `e`.
pub open spec fn spec_record_delete(m: Map<char, EntryView>, e: EntryView, name: Option<char>) -> Map<
    char,
    EntryView,
> {
    if name == Some(BLACK_HOLE) {
        m
    } else {
        let m1 = m.insert(UNNAMED, e);
        let m2 = match name {
            Some(n) => spec_write(m1, n, e),
            None => m1,
        };
        if spec_is_small_delete(e) {
            m2.insert(SMALL_DELETE, e)
        } else {
            spec_rotate(m2, e)
        }
    }
}

/// All registers, addressed by character.
#[derive(Debug)]
pub struct Registers {
    slots: Vec<Option<RegisterEntry>>,
}

impl View for Registers {
    type V = Map<char, EntryView>;

    /// Each populated register name and what it holds.
    closed spec fn view(&self) -> Map<char, EntryView> {
        Map::new(
            |c: char| 0 <= slot_of(c) && self.slots@[slot_of(c)] is Some,
            |c: char| self.slots@[slot_of(c)]->Some_0@,
        )
    }
}

impl Registers {
    pub closed spec fn wf(&self) -> bool {
        &&& self.slots@.len() == NUM_SLOTS
        &&& self.slots@[slot_of(BLACK_HOLE)] is None
    }

    pub fn new() -> (r: Self)
        ensures
            r.wf(),
            r@ == Map::<char, EntryView>::empty(),
    {
        let mut slots: Vec<Option<RegisterEntry>> = Vec::new();
        let mut i: usize = 0;
        while i < NUM_SLOTS
            invariant
                i <= NUM_SLOTS,
                slots@.len() == i,
                forall|j: int| 0 <= j < i ==> slots@[j] is None,
            decreases NUM_SLOTS - i,
        {
            slots.push(None);
            i = i + 1;
        }
        let r = Registers { slots };
        assert(r@ =~= Map::<char, EntryView>::empty());
        r
    }

    /// Store `e` under the canonical name `n` (any previous content is
    /// replaced).
    fn put(&mut self, n: char, e: RegisterEntry)
        requires
            old(self).wf(),
            slot_of(n) >= 0,
            n != BLACK_HOLE,
        ensures
            final(self).wf(),
            final(self)@ == old(self)@.insert(n, e@),
    {
        let i = slot_index(n).unwrap();
        self.slots[i] = Some(e);
        proof {
            assert forall|c: char| #[trigger] self@.contains_key(c) == old(self)@.insert(
                n,
                e@,
            ).contains_key(c) by {
                if c != n && slot_of(c) >= 0 {
                    assert(slot_of(c) != slot_of(n));
                }
            }
            assert forall|c: char| self@.contains_key(c) implies #[trigger] self@[c] == old(
                self,
            )@.insert(n, e@)[c] by {
                if c != n {
                    assert(slot_of(c) != slot_of(n));
                }
            }
            assert(self@ =~= old(self)@.insert(n, e@));
        }
    }

    /// The entry stored under the canonical name `n`, if any.
    fn get(&self, n: char) -> (r: Option<&RegisterEntry>)
        requires
            self.wf(),
        ensures
            ref_view(r) == (if self@.contains_key(n) {
                Some(self@[n])
            } else {
                None
            }),
    {
        match slot_index(n) {
            Some(i) => self.slots[i].as_ref(),
            None => None,
        }
    }
    /// Read register `name`. `"` and `@` alias the unnamed register, and an
    /// upper-case named register reads from its lower-case slot. The
    /// black-hole register `_` always returns `None`.
    pub fn read(&self, name: char) -> (r: Option<&RegisterEntry>)
        requires
            self.wf(),
        ensures
            ref_view(r) == spec_read(self@, name),
    {
        let n = match normalize_name(name) {
            Some(n) => n,
            None => return None,
        };
        if n == BLACK_HOLE {
            return None;
        }
        self.get(n)
    }

    /// Replace register `name`. `A`-`Z` appends to the lower-case slot
    /// (keeping the existing kind unless the slot is empty). Writes to the
    /// black-hole register are silently dropped, matching vim.
    pub fn write(&mut self, name: char, entry: RegisterEntry)
        requires
            old(self).wf(),
        ensures
            final(self).wf(),
            final(self)@ == spec_write(old(self)@, name, entry@),
    {
        let n = match normalize_name(name) {
            Some(n) => n,
            None => return ,
        };
        if n == BLACK_HOLE {
            return ;
        }
        proof {
            lemma_slot_of_normalized(name);
        }
        if char_is_ascii_upper(name) {
            self.append(n, entry);
        } else {
            self.put(n, entry);
        }
    }

    fn append(&mut self, slot: char, entry: RegisterEntry)
        requires
            old(self).wf(),
            slot_of(slot) >= 0,
            slot != BLACK_HOLE,
        ensures
            final(self).wf(),
            final(self)@ == spec_append(old(self)@, slot, entry@),
    {
        let joined = match self.get(slot) {
            Some(existing) => {
                let mut joined = String::new();
                joined.append(existing.text.as_str());
                let kind = existing.kind;
                if existing.kind == RegisterKind::Line && !ends_with_newline(&joined) {
                    string_push(&mut joined, '\n');
                }
                joined.append(entry.text.as_str());
                Some(RegisterEntry { text: joined, kind })
            },
            None => None,
        };
        match joined {
            Some(e) => {
                proof {
                    let ex = old(self)@[slot];
                    assert(e@.0 =~= ex.0 + (if ex.1 == RegisterKind::Line && !(ex.0.len() > 0
                        && ex.0.last() == '\n') {
                        seq!['\n']
                    } else {
                        Seq::<char>::empty()
                    }) + entry@.0);
                }
                self.put(slot, e)
            },
            None => self.put(slot, entry),
        }
    }

    /// Convenience read of the unnamed register — the default paste source.
    pub fn unnamed(&self) -> (r: Option<&RegisterEntry>)
        requires
            self.wf(),
        ensures
            ref_view(r) == spec_read(self@, UNNAMED),
    {
        self.get(UNNAMED)
    }

    /// Route a yank into the appropriate set of registers. Vim fills the
    /// unnamed register `"` and the yank register `0` always, and the
    /// explicit target `name` if given (`A`-`Z` appends). `name ==
    /// Some('_')` discards the text entirely (black-hole).
    pub fn record_yank(&mut self, text: &str, kind: RegisterKind, name: Option<char>)
        requires
            old(self).wf(),
        ensures
            final(self).wf(),
            final(self)@ == spec_record_yank(old(self)@, (text@, kind), name),
    {
        if name == Some(BLACK_HOLE) {
            return ;
        }
        let entry = RegisterEntry::new(text, kind);
        self.put(UNNAMED, entry.clone());
        self.put(YANK, entry.clone());
        if let Some(n) = name {
            self.write(n, entry);
        }
    }

    /// Route a delete into the appropriate set of registers. Vim fills the
    /// unnamed register `"` always; the small-delete register `-` for
    /// charwise deletes that don't span a line break; the numbered registers
    /// `1`-`9` for line/block deletes and any delete that crosses a line —
    /// `1` rolls down to `2`, `2` to `3`, etc.; and the explicit target
    /// `name` if given (`A`-`Z` appends; `_` discards).
    pub fn record_delete(&mut self, text: &str, kind: RegisterKind, name: Option<char>)
        requires
            old(self).wf(),
        ensures
            final(self).wf(),
            final(self)@ == spec_record_delete(old(self)@, (text@, kind), name),
    {
        if name == Some(BLACK_HOLE) {
            return ;
        }
        let entry = RegisterEntry::new(text, kind);
        self.put(UNNAMED, entry.clone());
        if let Some(n) = name {
            self.write(n, entry.clone());
        }
        if is_small_delete(&entry) {
            self.put(SMALL_DELETE, entry);
        } else {
            self.rotate_numbered(entry);
        }
    }

    fn rotate_numbered(&mut self, entry: RegisterEntry)
        requires
            old(self).wf(),
        ensures
            final(self).wf(),
            final(self)@ == spec_rotate(old(self)@, entry@),
    {
        let ghost old_slots = self.slots@;
        // Digit `d` lives in slot `8 + d`; walk `8` down to `1`, moving each
        // populated slot one place down the list.
        let mut d: usize = 8;
        while d >= 1
            invariant
                0 <= d <= 8,
                self.slots@.len() == NUM_SLOTS,
                forall|i: int|
                    0 <= i < NUM_SLOTS && !(8 <= i <= 17) ==> self.slots@[i] == old_slots[i],
                forall|i: int| 8 <= i <= 8 + d ==> self.slots@[i] == old_slots[i],
                d < 8 ==> self.slots@[8 + d + 1] is None,
                forall|i: int| 8 + d + 2 <= i <= 16 ==> self.slots@[i] == old_slots[i - 1],
                self.slots@[17] == (if d < 8 && old_slots[16] is Some {
                    old_slots[16]
                } else {
                    old_slots[17]
                }),
            decreases d,
        {
            let i = 8 + d;
            let moved = self.slots[i].take();
            if moved.is_some() {
                self.slots[i + 1] = moved;
            }
            d = d - 1;
        }
        self.slots[9] = Some(entry);
        proof {
            let m = old(self)@;
            assert forall|c: char| #[trigger] self@.contains_key(c) == spec_rotate(
                m,
                entry@,
            ).contains_key(c) && (self@.contains_key(c) ==> self@[c] == spec_rotate(
                m,
                entry@,
            )[c]) by {
                if '2' <= c <= '8' {
                    let p = ((c as int) - 1) as char;
                    assert(slot_of(p) == slot_of(c) - 1);
                }
            }
            assert(self@ =~= spec_rotate(m, entry@));
        }
    }

    /// Record the last inserted text into `.`. No-op for empty strings.
    pub fn record_insert(&mut self, text: &str)
        requires
            old(self).wf(),
        ensures
            final(self).wf(),
            text@.len() == 0 ==> final(self)@ == old(self)@,
            text@.len() > 0 ==> final(self)@ == old(self)@.insert(
                LAST_INSERT,
                (text@, RegisterKind::Char),
            ),
    {
        if text.is_empty() {
            return ;
        }
        self.put(LAST_INSERT, RegisterEntry::charwise(text));
    }

    /// Record the last successful search pattern into `/`.
    pub fn record_search(&mut self, pattern: &str)
        requires
            old(self).wf(),
        ensures
            final(self).wf(),
            final(self)@ == old(self)@.insert(LAST_SEARCH, (pattern@, RegisterKind::Char)),
    {
        self.put(LAST_SEARCH, RegisterEntry::charwise(pattern));
    }

    /// Record the most recent `:`-command into `:`.
    pub fn record_command(&mut self, cmd: &str)
        requires
            old(self).wf(),
        ensures
            final(self).wf(),
            final(self)@ == old(self)@.insert(LAST_COMMAND, (cmd@, RegisterKind::Char)),
    {
        self.put(LAST_COMMAND, RegisterEntry::charwise(cmd));
    }

    /// Drop every register.
    pub fn clear(&mut self)
        requires
            old(self).wf(),
        ensures
            final(self).wf(),
            final(self)@ == Map::<char, EntryView>::empty(),
    {
        let mut i: usize = 0;
        while i < NUM_SLOTS
            invariant
                i <= NUM_SLOTS,
                self.slots@.len() == NUM_SLOTS,
                forall|j: int| 0 <= j < i ==> self.slots@[j] is None,
            decreases NUM_SLOTS - i,
        {
            self.slots[i] = None;
            i = i + 1;
        }
        assert(self@ =~= Map::<char, EntryView>::empty());
    }

    /// Every populated register, ordered by name.
    pub fn iter(&self) -> (v: Vec<(char, &RegisterEntry)>)
        requires
            self.wf(),
        ensures
            forall|i: int|
                0 <= i < v@.len() ==> self@.contains_key(#[trigger] v@[i].0) && self@[v@[i].0]
                    == v@[i].1@,
            forall|i: int, j: int| 0 <= i < j < v@.len() ==> v@[i].0 < v@[j].0,
            forall|c: char|
                #[trigger] self@.contains_key(c) ==> exists|i: int|
                    0 <= i < v@.len() && v@[i].0 == c,
            forall|i: int|
                0 <= i < v@.len() ==> spec_read(self@, #[trigger] v@[i].0) == Some(v@[i].1@),
    {
        proof {
            law_view_names_canonical(*self);
        }
        let mut v: Vec<(char, &RegisterEntry)> = Vec::new();
        let mut i: usize = 0;
        while i < NUM_SLOTS
            invariant
                self.wf(),
                i <= NUM_SLOTS,
                forall|k: int|
                    0 <= k < v@.len() ==> 0 <= slot_of(#[trigger] v@[k].0) < i && self@.contains_key(
                        v@[k].0,
                    ) && self@[v@[k].0] == v@[k].1@,
                forall|k: int, l: int| 0 <= k < l < v@.len() ==> v@[k].0 < v@[l].0,
                forall|c: char|
                    #[trigger] self@.contains_key(c) && slot_of(c) < i ==> exists|k: int|
                        0 <= k < v@.len() && v@[k].0 == c,
            decreases NUM_SLOTS - i,
        {
            let name = slot_char(i);
            proof {
                lemma_slot_name(i as int);
                assert forall|k: int| 0 <= k < v@.len() implies v@[k].0 < name by {
                    let a = slot_of(v@[k].0);
                    lemma_slot_name(a);
                    lemma_slot_name_increasing(a, i as int);
                }
            }
            let ghost old_v = v@;
            match self.slots[i].as_ref() {
                Some(e) => {
                    v.push((name, e));
                    proof {
                        assert(v@[v@.len() - 1].0 == name);
                    }
                },
                None => {},
            }
            proof {
                assert forall|c: char| #[trigger]
                    self@.contains_key(c) && slot_of(c) < i + 1 implies exists|k: int|
                    0 <= k < v@.len() && v@[k].0 == c by {
                    if slot_of(c) == i {
                        lemma_slot_name(i as int);
                        assert(c == name);
                        assert(v@[v@.len() - 1].0 == c);
                    } else {
                        let k = choose|k: int| 0 <= k < old_v.len() && old_v[k].0 == c;
                        assert(v@[k] == old_v[k]);
                    }
                }
            }
            i = i + 1;
        }
        v
    }
}

/// Whether `s` ends in a line feed.
fn ends_with_newline(s: &String) -> (b: bool)
    ensures
        b == (s@.len() > 0 && s@.last() == '\n'),
{
    let st = s.as_str();
    let n = st.unicode_len();
    if n == 0 {
        false
    } else {
        st.get_char(n - 1) == '\n'
    }
}

/// Charwise text without a line break counts as a small delete.
pub fn is_small_delete(entry: &RegisterEntry) -> (b: bool)
    ensures
        b == spec_is_small_delete(entry@),
{
    entry.kind == RegisterKind::Char && !str_contains_char(entry.text.as_str(), '\n')
}

/// `"` and `@` name the same register.
pub proof fn law_unnamed_aliases(m: Map<char, EntryView>)
    ensures
        spec_read(m, '@') == spec_read(m, '"'),
{
}

/// The black hole reads as empty, and writing, yanking or deleting into it
/// changes nothing.
pub proof fn law_black_hole(m: Map<char, EntryView>, e: EntryView)
    ensures
        spec_read(m, BLACK_HOLE) is None,
        spec_write(m, BLACK_HOLE, e) == m,
        spec_record_yank(m, e, Some(BLACK_HOLE)) == m,
        spec_record_delete(m, e, Some(BLACK_HOLE)) == m,
{
}

/// Reading a register right after writing it (by a name that is not
/// upper case and not the black hole) gives back what was written.
pub proof fn law_read_after_write(m: Map<char, EntryView>, name: char, e: EntryView)
    requires
        spec_normalize_name(name) is Some,
        spec_normalize_name(name) != Some(BLACK_HOLE),
        !is_ascii_upper(name),
    ensures
        spec_read(spec_write(m, name, e), name) == Some(e),
{
}

/// Writing `X` (upper case) appends to register `x`: an empty `x` takes
/// the entry as is; a charwise `x` gets the new text right after its own.
pub proof fn law_upper_case_appends(m: Map<char, EntryView>, name: char, e: EntryView)
    requires
        is_ascii_upper(name),
    ensures
        !m.contains_key(((name as u32) + 32) as char) ==> spec_read(spec_write(m, name, e), name)
            == Some(e),
        m.contains_key(((name as u32) + 32) as char) && m[((name as u32) + 32) as char].1
            == RegisterKind::Char ==> spec_read(spec_write(m, name, e), name) == Some(
            (m[((name as u32) + 32) as char].0 + e.0, RegisterKind::Char),
        ),
{
    let n = ((name as u32) + 32) as char;
    if m.contains_key(n) && m[n].1 == RegisterKind::Char {
        assert(m[n].0 + Seq::<char>::empty() =~= m[n].0);
    }
}

/// Every yank not sent to the black hole lands in both the unnamed and the
/// yank register.
pub proof fn law_yank_fills_unnamed_and_zero(m: Map<char, EntryView>, e: EntryView, name: Option<
    char,
>)
    requires
        name != Some(BLACK_HOLE),
        name is Some ==> !is_ascii_upper(name->Some_0),
    ensures
        spec_read(spec_record_yank(m, e, name), UNNAMED) == Some(e),
        spec_read(spec_record_yank(m, e, name), YANK) == Some(e),
{
}

/// A delete not sent to the black hole always lands in the unnamed register
/// (unless an explicit upper-case target appends to it), and never touches
/// the yank register unless `0` is the explicit target.
pub proof fn law_delete_fills_unnamed_not_yank(
    m: Map<char, EntryView>,
    e: EntryView,
    name: Option<char>,
)
    requires
        name != Some(BLACK_HOLE),
        name is Some ==> !is_ascii_upper(name->Some_0),
        name != Some(YANK),
    ensures
        spec_read(spec_record_delete(m, e, name), UNNAMED) == Some(e),
        spec_read(spec_record_delete(m, e, name), YANK) == spec_read(m, YANK),
{
}

/// A small delete fills `-` and leaves the numbered registers alone; any
/// other delete goes to `1` and pushes the previous `1` down to `2`.
pub proof fn law_delete_routing(m: Map<char, EntryView>, e: EntryView)
    ensures
        spec_is_small_delete(e) ==> spec_read(spec_record_delete(m, e, None), SMALL_DELETE)
            == Some(e) && spec_read(spec_record_delete(m, e, None), '1') == spec_read(m, '1'),
        !spec_is_small_delete(e) ==> spec_read(spec_record_delete(m, e, None), '1') == Some(e)
            && spec_read(spec_record_delete(m, e, None), '2') == spec_read(m, '1'),
{
    assert((('2' as int) - 1) as char == '1');
}


proof fn lemma_slot_name_canonical(c: char)
    requires
        slot_of(c) >= 0,
    ensures
        spec_normalize_name(c) == Some(c),
{
}

/// Every register the view holds is under a canonical name (one that
/// reads back as itself), and never under the black hole: what `iter`
/// yields can be read back by its name.
pub proof fn law_view_names_canonical(r: Registers)
    requires
        r.wf(),
    ensures
        forall|c: char| #[trigger]
            r@.contains_key(c) ==> spec_normalize_name(c) == Some(c) && c != BLACK_HOLE,
{
    assert forall|c: char| #[trigger] r@.contains_key(c) implies spec_normalize_name(c) == Some(c)
        && c != BLACK_HOLE by {
        lemma_slot_name_canonical(c);
    }
}

} // verus!

//! Vim-style `/` search: matching a pattern against a buffer's text,
//! painting one overlay per match, picking the match to jump to, and the
//! bookkeeping that lets `n` / `N` repeat the last search and live search
//! restart from where `/` was pressed.

use vstd::prelude::*;

use ropey::Rope;

use crate::text::buffer::{BufferId, FilePos};
use crate::text::props::{overlay_index, OverlayId, PropEntry, PropStore};
use crate::text::rope::{
    char_to_line, len_bytes, line_to_char, rope_chars, rope_line_of, rope_line_start,
    rope_to_string, seq_utf8_len, utf8_len,
};

verus! {

#[derive(Clone, Copy, Debug, PartialEq, Eq, Structural)]
pub enum SearchDir {
    Forward,
    Backward,
}

impl Default for SearchDir {
    fn default() -> (d: Self)
        ensures
            d == SearchDir::Forward,
    {
        SearchDir::Forward
    }
}

/// The opposite direction.
pub open spec fn spec_reverse(d: SearchDir) -> SearchDir {
    match d {
        SearchDir::Forward => SearchDir::Backward,
        SearchDir::Backward => SearchDir::Forward,
    }
}

impl SearchDir {
    /// The opposite direction.
    pub fn reverse(self) -> (r: Self)
        ensures
            r == spec_reverse(self),
    {
        match self {
            SearchDir::Forward => SearchDir::Backward,
            SearchDir::Backward => SearchDir::Forward,
        }
    }
}

/// `n`/`N` symmetry: reversing a direction changes it, and reversing twice
/// gives it back.
pub proof fn law_reverse_involutive(d: SearchDir)
    ensures
        spec_reverse(d) != d,
        spec_reverse(spec_reverse(d)) == d,
{
}

/// Whether `b` is the byte offset where some char of `text` starts (or
/// its end).
pub open spec fn is_char_boundary(text: Seq<char>, b: int) -> bool {
    exists|k: int| 0 <= k <= text.len() && seq_utf8_len(text.take(k)) == b
}

/// Byte ranges that lie in `text` on char boundaries, each one starting
/// after the one before and not overlapping it.
pub open spec fn ranges_in_order(text: Seq<char>, r: Seq<(int, int)>) -> bool {
    &&& forall|i: int|
        #![trigger r[i]]
        0 <= i < r.len() ==> {
            &&& 0 <= r[i].0 <= r[i].1 <= seq_utf8_len(text)
            &&& is_char_boundary(text, r[i].0)
            &&& is_char_boundary(text, r[i].1)
        }
    &&& forall|i: int, j: int| 0 <= i < j < r.len() ==> r[i].1 <= r[j].0 && r[i].0 < r[j].0
}

/// Whether `pattern` compiles as a regex.
pub uninterp spec fn regex_compiles(pattern: Seq<char>) -> bool;

/// The byte ranges of the successive matches of `pattern` in `text`.
pub uninterp spec fn regex_match_bytes(pattern: Seq<char>, text: Seq<char>) -> Seq<(int, int)>;

pub open spec fn int_ranges(v: Seq<(usize, usize)>) -> Seq<(int, int)> {
    v.map_values(|p: (usize, usize)| (p.0 as int, p.1 as int))
}

/// `Regex::new(pattern)` then `find_iter(text)`: an error message when the
/// pattern does not compile, else the byte ranges of the successive
/// non-overlapping matches. As the crate documents, each match starts no
/// later than it ends and its offsets fall on char boundaries of `text`;
/// its iterator moves past an empty match before searching again, so
/// starts strictly increase.
#[verifier::external_body]
fn regex_find_all(pattern: &str, text: &str) -> (r: Result<Vec<(usize, usize)>, String>)
    ensures
        r is Ok <==> regex_compiles(pattern@),
        r matches Ok(v) ==> int_ranges(v@) == regex_match_bytes(pattern@, text@) && ranges_in_order(
            text@,
            int_ranges(v@),
        ),
{
    match regex::Regex::new(pattern) {
        Ok(re) => Ok(re.find_iter(text).map(|m| (m.start(), m.end())).collect()),
        Err(e) => Err(e.to_string()),
    }
}

/// Prefix byte lengths grow with the prefix.
proof fn lemma_prefix_bytes_increase(s: Seq<char>, i: int, j: int)
    requires
        0 <= i < j <= s.len(),
    ensures
        seq_utf8_len(s.take(i)) < seq_utf8_len(s.take(j)),
    decreases j - i,
{
    crate::text::rope::lemma_seq_utf8_len_take_step(s, j - 1);
    if i < j - 1 {
        lemma_prefix_bytes_increase(s, i, j - 1);
    }
}

/// The char index at byte offset `b` of `s` (meaningful on a char
/// boundary).
pub open spec fn char_index_at(s: Seq<char>, b: int) -> int {
    choose|k: int| 0 <= k <= s.len() && seq_utf8_len(s.take(k)) == b
}

proof fn lemma_char_index_at(s: Seq<char>, b: int, k: int)
    requires
        0 <= k <= s.len(),
        seq_utf8_len(s.take(k)) == b,
    ensures
        char_index_at(s, b) == k,
{
    let c = char_index_at(s, b);
    if c < k {
        lemma_prefix_bytes_increase(s, c, k);
    } else if k < c {
        lemma_prefix_bytes_increase(s, k, c);
    }
}

/// The char index where byte offset `b` of the text `v` falls.
fn char_index_of_byte(v: &Vec<char>, b: usize) -> (k: usize)
    requires
        is_char_boundary(v@, b as int),
    ensures
        k <= v@.len(),
        seq_utf8_len(v@.take(k as int)) == b,
        k == char_index_at(v@, b as int),
{
    let ghost s = v@;
    let ghost want = char_index_at(s, b as int);
    proof {
        lemma_char_index_at(s, b as int, want);
        assert(s.take(0) =~= Seq::<char>::empty());
    }
    let n = v.len();
    let mut k: usize = 0;
    let mut acc: usize = 0;
    while acc < b
        invariant
            s == v@,
            n == s.len(),
            k <= want <= s.len(),
            acc == seq_utf8_len(s.take(k as int)),
            seq_utf8_len(s.take(want)) == b,
        decreases b - acc,
    {
        proof {
            assert(k < want);
            crate::text::rope::lemma_seq_utf8_len_take_step(s, k as int);
            if k + 1 < want {
                lemma_prefix_bytes_increase(s, k + 1, want);
            }
        }
        acc = acc + crate::lsp::position::char_len_utf8(v[k]);
        k = k + 1;
    }
    proof {
        if k < want {
            lemma_prefix_bytes_increase(s, k as int, want);
        }
    }
    k
}

/// Byte ranges of `s` as char ranges.
pub open spec fn char_ranges(s: Seq<char>, r: Seq<(int, int)>) -> Seq<(int, int)> {
    r.map_values(|p: (int, int)| (char_index_at(s, p.0), char_index_at(s, p.1)))
}

/// A match start a forward search from `from` may land on.
pub open spec fn ahead(s: int, from: int, inclusive: bool) -> bool {
    if inclusive {
        s >= from
    } else {
        s > from
    }
}

/// A match start a backward search from `from` may land on.
pub open spec fn behind(s: int, from: int, inclusive: bool) -> bool {
    if inclusive {
        s <= from
    } else {
        s < from
    }
}

/// The first start from index `i` on that a forward search may land on.
pub open spec fn first_ahead(starts: Seq<int>, from: int, inclusive: bool, i: int) -> Option<int>
    decreases starts.len() - i,
{
    if i < 0 || i >= starts.len() {
        None
    } else if ahead(starts[i], from, inclusive) {
        Some(starts[i])
    } else {
        first_ahead(starts, from, inclusive, i + 1)
    }
}

/// The last start before index `i` that a backward search may land on.
pub open spec fn last_behind(starts: Seq<int>, from: int, inclusive: bool, i: int) -> Option<int>
    decreases i,
{
    if i <= 0 || i > starts.len() {
        None
    } else if behind(starts[i - 1], from, inclusive) {
        Some(starts[i - 1])
    } else {
        last_behind(starts, from, inclusive, i - 1)
    }
}

/// The match to jump to: forward, the first match starting at or after
/// `from` (strictly after unless `inclusive`), else the first match;
/// backward, the last match starting at or before `from` (strictly before
/// unless `inclusive`), else the last match; none without matches.
pub open spec fn spec_pick(starts: Seq<int>, dir: SearchDir, from: int, inclusive: bool) -> Option<int> {
    if starts.len() == 0 {
        None
    } else {
        match dir {
            SearchDir::Forward => match first_ahead(starts, from, inclusive, 0) {
                Some(s) => Some(s),
                None => Some(starts[0]),
            },
            SearchDir::Backward => match last_behind(starts, from, inclusive, starts.len() as int) {
                Some(s) => Some(s),
                None => Some(starts[starts.len() - 1]),
            },
        }
    }
}

pub open spec fn int_seq(v: Seq<usize>) -> Seq<int> {
    v.map_values(|x: usize| x as int)
}

pub open spec fn opt_int(o: Option<usize>) -> Option<int> {
    match o {
        Some(x) => Some(x as int),
        None => None,
    }
}

/// Pick the match start to jump to (see [`spec_pick`]); `starts` are the
/// match starts in order.
pub fn pick_destination(starts: &Vec<usize>, dir: SearchDir, from: usize, inclusive: bool) -> (r:
    Option<usize>)
    ensures
        opt_int(r) == spec_pick(int_seq(starts@), dir, from as int, inclusive),
{
    let ghost ss = int_seq(starts@);
    let n = starts.len();
    if n == 0 {
        return None;
    }
    match dir {
        SearchDir::Forward => {
            let mut i: usize = 0;
            while i < n
                invariant
                    dir == SearchDir::Forward,
                    n == starts@.len(),
                    ss == int_seq(starts@),
                    i <= n,
                    first_ahead(ss, from as int, inclusive, i as int) == first_ahead(
                        ss,
                        from as int,
                        inclusive,
                        0,
                    ),
                decreases n - i,
            {
                let s = starts[i];
                let hit = if inclusive {
                    s >= from
                } else {
                    s > from
                };
                if hit {
                    return Some(s);
                }
                i = i + 1;
            }
            Some(starts[0])
        },
        SearchDir::Backward => {
            let mut i: usize = n;
            while i > 0
                invariant
                    dir == SearchDir::Backward,
                    n == starts@.len(),
                    ss == int_seq(starts@),
                    i <= n,
                    last_behind(ss, from as int, inclusive, i as int) == last_behind(
                        ss,
                        from as int,
                        inclusive,
                        n as int,
                    ),
                decreases i,
            {
                let s = starts[i - 1];
                let hit = if inclusive {
                    s <= from
                } else {
                    s < from
                };
                if hit {
                    return Some(s);
                }
                i = i - 1;
            }
            Some(starts[n - 1])
        },
    }
}

/// The cursor position `/` was pressed at, kept so live search restarts
/// matching from there on every keystroke and cancelling puts the cursor
/// back.
#[derive(Clone, Copy, Debug, PartialEq, Eq, Structural)]
pub struct SearchOrigin {
    pub buf: BufferId,
    pub cursor: FilePos,
}

/// Search bookkeeping: the last submitted pattern and direction (for
/// `n`/`N`), the overlays the previous run painted, the live-search origin,
/// and the buffer searches target.
#[derive(Debug)]
pub struct Search {
    last_pattern: Option<String>,
    last_dir: SearchDir,
    overlays: Vec<(BufferId, OverlayId)>,
    origin: Option<SearchOrigin>,
    target_buf: Option<BufferId>,
}

impl Search {
    pub closed spec fn spec_last_pattern(&self) -> Option<Seq<char>> {
        match self.last_pattern {
            Some(p) => Some(p@),
            None => None,
        }
    }

    pub closed spec fn spec_last_dir(&self) -> SearchDir {
        self.last_dir
    }

    /// The overlays painted by the last run, with their buffers, in order.
    pub closed spec fn spec_overlays(&self) -> Seq<(BufferId, OverlayId)> {
        self.overlays@
    }

    pub closed spec fn spec_origin(&self) -> Option<SearchOrigin> {
        self.origin
    }

    pub closed spec fn spec_target(&self) -> Option<BufferId> {
        self.target_buf
    }

    pub fn last_pattern(&self) -> (r: Option<&str>)
        ensures
            match r {
                Some(p) => self.spec_last_pattern() == Some(p@),
                None => self.spec_last_pattern() is None,
            },
    {
        match &self.last_pattern {
            Some(p) => Some(p.as_str()),
            None => None,
        }
    }

    pub fn last_dir(&self) -> (d: SearchDir)
        ensures
            d == self.spec_last_dir(),
    {
        self.last_dir
    }

    pub fn origin(&self) -> (o: Option<SearchOrigin>)
        ensures
            o == self.spec_origin(),
    {
        self.origin
    }

    /// Remember where `/` was pressed; searches now target that buffer.
    pub fn set_origin(&mut self, origin: SearchOrigin)
        ensures
            final(self).spec_origin() == Some(origin),
            final(self).spec_target() == Some(origin.buf),
            final(self).spec_last_pattern() == old(self).spec_last_pattern(),
            final(self).spec_last_dir() == old(self).spec_last_dir(),
            final(self).spec_overlays() == old(self).spec_overlays(),
    {
        self.target_buf = Some(origin.buf);
        self.origin = Some(origin);
    }

    /// Take the origin out; the target buffer stays, so `n`/`N` keep
    /// searching it after the prompt closes.
    pub fn take_origin(&mut self) -> (o: Option<SearchOrigin>)
        ensures
            o == old(self).spec_origin(),
            final(self).spec_origin() is None,
            final(self).spec_target() == old(self).spec_target(),
            final(self).spec_last_pattern() == old(self).spec_last_pattern(),
            final(self).spec_last_dir() == old(self).spec_last_dir(),
            final(self).spec_overlays() == old(self).spec_overlays(),
    {
        self.origin.take()
    }

    pub fn target_buf(&self) -> (b: Option<BufferId>)
        ensures
            b == self.spec_target(),
    {
        self.target_buf
    }

    pub fn clear_target(&mut self)
        ensures
            final(self).spec_target() is None,
            final(self).spec_origin() == old(self).spec_origin(),
            final(self).spec_last_pattern() == old(self).spec_last_pattern(),
            final(self).spec_last_dir() == old(self).spec_last_dir(),
            final(self).spec_overlays() == old(self).spec_overlays(),
    {
        self.target_buf = None;
    }
}

impl Default for Search {
    fn default() -> (s: Self)
        ensures
            s.spec_last_pattern() is None,
            s.spec_last_dir() == SearchDir::Forward,
            s.spec_overlays().len() == 0,
            s.spec_origin() is None,
            s.spec_target() is None,
    {
        Search {
            last_pattern: None,
            last_dir: SearchDir::Forward,
            overlays: Vec::new(),
            origin: None,
            target_buf: None,
        }
    }
}

/// The overlay ids of `ov` painted in buffer `b`, in order.
pub open spec fn overlays_in(ov: Seq<(BufferId, OverlayId)>, b: BufferId) -> Seq<OverlayId>
    decreases ov.len(),
{
    if ov.len() == 0 {
        Seq::empty()
    } else if ov.last().0 == b {
        overlays_in(ov.drop_last(), b).push(ov.last().1)
    } else {
        overlays_in(ov.drop_last(), b)
    }
}

/// The entries of `ov` painted in buffers other than `b`, in order.
pub open spec fn overlays_elsewhere(ov: Seq<(BufferId, OverlayId)>, b: BufferId) -> Seq<
    (BufferId, OverlayId),
>
    decreases ov.len(),
{
    if ov.len() == 0 {
        Seq::empty()
    } else if ov.last().0 != b {
        overlays_elsewhere(ov.drop_last(), b).push(ov.last())
    } else {
        overlays_elsewhere(ov.drop_last(), b)
    }
}

/// An overlay list after deleting each of `ids` in turn.
pub open spec fn delete_each<E>(list: Seq<(OverlayId, E)>, ids: Seq<OverlayId>) -> Seq<(OverlayId, E)>
    decreases ids.len(),
{
    if ids.len() == 0 {
        list
    } else {
        let l = delete_each(list, ids.drop_last());
        match overlay_index(l, ids.last()) {
            Some(i) => l.remove(i),
            None => l,
        }
    }
}

/// Take the search's overlays out: delete those of buffer `target` from
/// its property store, and hand back the others (for their own buffers'
/// stores), in order.
fn drain_overlays(search: &mut Search, props: &mut PropStore<PropEntry>, target: BufferId) -> (others: Vec<
    (BufferId, OverlayId),
>)
    requires
        old(props).wf(),
    ensures
        final(props).wf(),
        final(props).overlay_list() == delete_each(
            old(props).overlay_list(),
            overlays_in(old(search).spec_overlays(), target),
        ),
        final(props).text_props() == old(props).text_props(),
        final(props).next_id() == old(props).next_id(),
        others@ == overlays_elsewhere(old(search).spec_overlays(), target),
        final(search).spec_overlays().len() == 0,
        final(search).spec_last_pattern() == old(search).spec_last_pattern(),
        final(search).spec_last_dir() == old(search).spec_last_dir(),
        final(search).spec_origin() == old(search).spec_origin(),
        final(search).spec_target() == old(search).spec_target(),
{
    let mut ov: Vec<(BufferId, OverlayId)> = Vec::new();
    std::mem::swap(&mut ov, &mut search.overlays);
    let ghost start = props.overlay_list();
    let mut others: Vec<(BufferId, OverlayId)> = Vec::new();
    let mut i: usize = 0;
    proof {
        assert(ov@.take(0) =~= Seq::<(BufferId, OverlayId)>::empty());
    }
    while i < ov.len()
        invariant
            props.wf(),
            i <= ov@.len(),
            props.overlay_list() == delete_each(start, overlays_in(ov@.take(i as int), target)),
            props.text_props() == old(props).text_props(),
            props.next_id() == old(props).next_id(),
            start == old(props).overlay_list(),
            others@ == overlays_elsewhere(ov@.take(i as int), target),
        decreases ov@.len() - i,
    {
        let (b, id) = ov[i];
        proof {
            assert(ov@.take(i + 1).drop_last() =~= ov@.take(i as int));
            assert(ov@.take(i + 1).last() == (b, id));
        }
        if b == target {
            proof {
                let ids = overlays_in(ov@.take(i as int), target);
                assert(overlays_in(ov@.take(i + 1), target) == ids.push(id));
                assert(ids.push(id).drop_last() =~= ids);
            }
            props.delete_overlay(id);
        } else {
            others.push((b, id));
        }
        i = i + 1;
    }
    proof {
        assert(ov@.take(i as int) =~= ov@);
    }
    others
}

/// Drop every overlay the search painted: with a preferred store, the
/// overlays of the buffer painted first are deleted from it; the rest are
/// handed back for their own buffers.
pub fn clear_overlays(search: &mut Search, prefer: Option<&mut PropStore<PropEntry>>) -> (others: Vec<
    (BufferId, OverlayId),
>)
    requires
        match prefer {
            Some(p) => p.wf(),
            None => true,
        },
    ensures
        final(search).spec_overlays().len() == 0,
        final(search).spec_last_pattern() == old(search).spec_last_pattern(),
        final(search).spec_last_dir() == old(search).spec_last_dir(),
        final(search).spec_origin() == old(search).spec_origin(),
        final(search).spec_target() == old(search).spec_target(),
        match prefer {
            Some(p) => if old(search).spec_overlays().len() > 0 {
                let t = old(search).spec_overlays()[0].0;
                &&& final(p).wf()
                &&& final(p).overlay_list() == delete_each(
                    p.overlay_list(),
                    overlays_in(old(search).spec_overlays(), t),
                )
                &&& final(p).text_props() == p.text_props()
                &&& final(p).next_id() == p.next_id()
                &&& others@ == overlays_elsewhere(old(search).spec_overlays(), t)
            } else {
                &&& *final(p) == *p
                &&& others@.len() == 0
            },
            None => others@ == old(search).spec_overlays(),
        },
{
    match prefer {
        Some(p) => {
            if search.overlays.len() > 0 {
                let t = search.overlays[0].0;
                drain_overlays(search, p, t)
            } else {
                Vec::new()
            }
        },
        None => {
            let mut ov: Vec<(BufferId, OverlayId)> = Vec::new();
            std::mem::swap(&mut ov, &mut search.overlays);
            ov
        },
    }
}

/// Matches start at distinct offsets within the text, so there are at
/// most one more of them than the text has bytes.
proof fn lemma_match_count(s: Seq<char>, r: Seq<(int, int)>)
    requires
        ranges_in_order(s, r),
    ensures
        r.len() <= seq_utf8_len(s) + 1,
{
    crate::text::rope::lemma_seq_utf8_len_nonneg(s);
    if r.len() > 0 {
        lemma_start_at_least_index(s, r, r.len() - 1);
        assert(r[r.len() - 1].0 <= seq_utf8_len(s));
    }
}

proof fn lemma_start_at_least_index(s: Seq<char>, r: Seq<(int, int)>, i: int)
    requires
        ranges_in_order(s, r),
        0 <= i < r.len(),
    ensures
        r[i].0 >= i,
    decreases i,
{
    if i > 0 {
        lemma_start_at_least_index(s, r, i - 1);
        assert(r[i - 1].0 < r[i].0);
    }
}

/// Where char `c` of `s` is: its row, and its column on that row.
pub open spec fn pos_of(s: Seq<char>, c: int) -> FilePos {
    let row = rope_line_of(s, c);
    FilePos { col: (c - rope_line_start(s, row)) as usize, row: row as usize }
}

/// `e` is the overlay painted over the char range `r` of `s`.
pub open spec fn paints_match(e: PropEntry, s: Seq<char>, r: (int, int)) -> bool {
    &&& e.start == pos_of(s, r.0)
    &&& e.end == pos_of(s, r.1)
    &&& (e.face matches Some(f) && f@ == "search-match"@)
    &&& e.priority == 0
    &&& !e.pad_to_width
}

/// What a run leaves for the caller: whether anything matched, the char
/// index to move the cursor to, and the overlays of other buffers to
/// delete from their own stores.
#[derive(Debug)]
pub struct RunOutcome {
    pub found: bool,
    pub dest: Option<usize>,
    pub other_clears: Vec<(BufferId, OverlayId)>,
}

/// The starts of char ranges.
pub open spec fn starts_of(m: Seq<(int, int)>) -> Seq<int> {
    m.map_values(|p: (int, int)| p.0)
}

/// Run `pattern` over the text of buffer `target_id` (its rope and its
/// property store): repaint one overlay per match, having dropped the ones
/// the previous run painted there, and pick the match to jump to from
/// `from_char` in `dir` (see [`spec_pick`]; wrapping around is
/// unconditional). The pattern and direction are remembered for `n`/`N`.
/// A pattern that does not compile leaves everything as it was.
pub fn run(
    search: &mut Search,
    props: &mut PropStore<PropEntry>,
    target_id: BufferId,
    rope: &Rope,
    pattern: &str,
    dir: SearchDir,
    from_char: usize,
    inclusive: bool,
) -> (r: Result<RunOutcome, String>)
    requires
        old(props).wf(),
        old(props).next_id() + seq_utf8_len(rope_chars(*rope)) + 1 < u64::MAX,
    ensures
        match r {
            Err(_) => {
                &&& !regex_compiles(pattern@)
                &&& *final(search) == *old(search)
                &&& *final(props) == *old(props)
            },
            Ok(o) => {
                let s = rope_chars(*rope);
                let mb = regex_match_bytes(pattern@, s);
                let m = char_ranges(s, mb);
                let kept = delete_each(
                    old(props).overlay_list(),
                    overlays_in(old(search).spec_overlays(), target_id),
                );
                let next = old(props).next_id() as int;
                &&& regex_compiles(pattern@)
                &&& o.found == (mb.len() > 0)
                &&& opt_int(o.dest) == spec_pick(starts_of(m), dir, from_char as int, inclusive)
                &&& o.other_clears@ == overlays_elsewhere(old(search).spec_overlays(), target_id)
                &&& final(props).wf()
                &&& final(props).text_props() == old(props).text_props()
                &&& final(props).next_id() == next + mb.len()
                &&& final(props).overlay_list().len() == kept.len() + mb.len()
                &&& final(props).overlay_list().take(kept.len() as int) == kept
                &&& forall|i: int|
                    0 <= i < mb.len() ==> {
                        let e = #[trigger] final(props).overlay_list()[kept.len() + i];
                        &&& e.0 == OverlayId((next + i) as u64)
                        &&& paints_match(e.1, s, m[i])
                    }
                &&& final(search).spec_overlays().len() == mb.len()
                &&& forall|i: int|
                    0 <= i < mb.len() ==> #[trigger] final(search).spec_overlays()[i] == (
                    target_id,
                    OverlayId((next + i) as u64),
                )
                &&& final(search).spec_last_pattern() == Some(pattern@)
                &&& final(search).spec_last_dir() == dir
                &&& final(search).spec_origin() == old(search).spec_origin()
                &&& final(search).spec_target() == old(search).spec_target()
            },
        },
{
    let text = rope_to_string(rope);
    let found = match regex_find_all(pattern, text.as_str()) {
        Ok(v) => v,
        Err(e) => {
            return Err(e);
        },
    };
    let ghost s = rope_chars(*rope);
    let ghost mb = regex_match_bytes(pattern@, s);
    let ghost m = char_ranges(s, mb);
    proof {
        lemma_match_count(s, mb);
    }
    let other_clears = drain_overlays(search, props, target_id);
    let ghost kept = props.overlay_list();
    let ghost next = props.next_id() as int;
    let chars = crate::strs::collect_chars(text.as_str());
    let mut starts: Vec<usize> = Vec::new();
    let mut k: usize = 0;
    while k < found.len()
        invariant
            s == rope_chars(*rope),
            chars@ == s,
            mb == regex_match_bytes(pattern@, s),
            m == char_ranges(s, mb),
            int_ranges(found@) == mb,
            ranges_in_order(s, mb),
            props.wf(),
            next + mb.len() < u64::MAX,
            k <= found@.len(),
            props.next_id() == next + k,
            props.overlay_list().len() == kept.len() + k,
            props.overlay_list().take(kept.len() as int) == kept,
            forall|i: int|
                0 <= i < k ==> {
                    let e = #[trigger] props.overlay_list()[kept.len() + i];
                    &&& e.0 == OverlayId((next + i) as u64)
                    &&& paints_match(e.1, s, m[i])
                },
            props.text_props() == old(props).text_props(),
            search.spec_overlays().len() == k,
            forall|i: int|
                0 <= i < k ==> #[trigger] search.spec_overlays()[i] == (
                target_id,
                OverlayId((next + i) as u64),
            ),
            search.spec_last_pattern() == old(search).spec_last_pattern(),
            search.spec_last_dir() == old(search).spec_last_dir(),
            search.spec_origin() == old(search).spec_origin(),
            search.spec_target() == old(search).spec_target(),
            starts@.len() == k,
            forall|i: int| 0 <= i < k ==> starts@[i] as int == #[trigger] m[i].0,
        decreases found@.len() - k,
    {
        let (bs, be) = found[k];
        proof {
            assert(mb[k as int] == (bs as int, be as int));
        }
        let cs = char_index_of_byte(&chars, bs);
        let ce = char_index_of_byte(&chars, be);
        let rs = char_to_line(rope, cs);
        let ls = line_to_char(rope, rs);
        let re = char_to_line(rope, ce);
        let le = line_to_char(rope, re);
        let entry = PropEntry {
            start: FilePos { col: cs - ls, row: rs },
            end: FilePos { col: ce - le, row: re },
            face: Some("search-match".to_owned()),
            priority: 0,
            pad_to_width: false,
        };
        let ghost before = props.overlay_list();
        let id = props.create_overlay(entry);
        proof {
            reveal_strlit("search-match");
            assert(m[k as int] == (cs as int, ce as int));
            assert(paints_match(entry, s, m[k as int]));
            assert(props.overlay_list() == before.push((id, entry)));
            assert(props.overlay_list().take(kept.len() as int) =~= kept) by {
                assert(before.take(kept.len() as int) == kept);
            }
            assert forall|i: int| 0 <= i < k + 1 implies {
                let e = #[trigger] props.overlay_list()[kept.len() + i];
                &&& e.0 == OverlayId((next + i) as u64)
                &&& paints_match(e.1, s, m[i])
            } by {
                if i < k {
                    assert(props.overlay_list()[kept.len() + i] == before[kept.len() + i]);
                }
            }
        }
        search.overlays.push((target_id, id));
        starts.push(cs);
        k = k + 1;
    }
    let dest = pick_destination(&starts, dir, from_char, inclusive);
    proof {
        assert(int_seq(starts@) =~= starts_of(m));
    }
    search.last_pattern = Some(pattern.to_owned());
    search.last_dir = dir;
    Ok(RunOutcome { found: found.len() > 0, dest, other_clears })
}

/// The notice a search gives when asked to: none for a hit, `Pattern not
/// found: <pattern>` for a miss, `Invalid pattern: <why>` for a pattern
/// that does not compile.
pub fn miss_notice(r: &Result<bool, String>, pattern: &str, notify_on_miss: bool) -> (n: Option<
    String,
>)
    ensures
        match n {
            Some(t) => notify_on_miss && match r {
                Ok(found) => found == false && t@ == "Pattern not found: "@ + pattern@,
                Err(e) => t@ == "Invalid pattern: "@ + e@,
            },
            None => !notify_on_miss || r == Ok::<bool, String>(true),
        },
{
    if !notify_on_miss {
        return None;
    }
    match r {
        Ok(true) => None,
        Ok(false) => {
            let mut t = "Pattern not found: ".to_owned();
            t.append(pattern);
            Some(t)
        },
        Err(e) => {
            let mut t = "Invalid pattern: ".to_owned();
            t.append(e.as_str());
            Some(t)
        },
    }
}

proof fn lemma_first_ahead_skip(s: Seq<int>, from: int, inclusive: bool, j: int, k: int)
    requires
        0 <= j <= k,
        forall|l: int| j <= l < k && l < s.len() ==> !ahead(#[trigger] s[l], from, inclusive),
    ensures
        first_ahead(s, from, inclusive, j) == first_ahead(s, from, inclusive, k),
    decreases k - j,
{
    if j < k && j < s.len() {
        lemma_first_ahead_skip(s, from, inclusive, j + 1, k);
    } else if j < k {
        assert(first_ahead(s, from, inclusive, j) is None);
        if k < s.len() {
            assert(false);
        }
    }
}

proof fn lemma_last_behind_skip(s: Seq<int>, from: int, inclusive: bool, j: int, k: int)
    requires
        0 <= j <= k <= s.len(),
        forall|l: int| j <= l < k ==> !behind(#[trigger] s[l], from, inclusive),
    ensures
        last_behind(s, from, inclusive, k) == last_behind(s, from, inclusive, j),
    decreases k - j,
{
    if j < k {
        lemma_last_behind_skip(s, from, inclusive, j, k - 1);
    }
}

/// With any matches, a search lands on one of them.
pub proof fn law_pick_lands_on_a_match(starts: Seq<int>, dir: SearchDir, from: int, inclusive: bool)
    requires
        starts.len() > 0,
    ensures
        spec_pick(starts, dir, from, inclusive) matches Some(x) && starts.contains(x),
{
    lemma_first_ahead_in(starts, from, inclusive, 0);
    lemma_last_behind_in(starts, from, inclusive, starts.len() as int);
}

proof fn lemma_first_ahead_in(s: Seq<int>, from: int, inclusive: bool, j: int)
    ensures
        first_ahead(s, from, inclusive, j) matches Some(x) ==> s.contains(x),
    decreases s.len() - j,
{
    if 0 <= j < s.len() && !ahead(s[j], from, inclusive) {
        lemma_first_ahead_in(s, from, inclusive, j + 1);
    }
}

proof fn lemma_last_behind_in(s: Seq<int>, from: int, inclusive: bool, j: int)
    ensures
        last_behind(s, from, inclusive, j) matches Some(x) ==> s.contains(x),
    decreases j,
{
    if 0 < j <= s.len() && !behind(s[j - 1], from, inclusive) {
        lemma_last_behind_in(s, from, inclusive, j - 1);
    }
}

/// `n` then `N`: from a match, jumping to the next match and then back to
/// the previous one (wrapping around either way) returns to the match it
/// started on.
pub proof fn law_next_then_previous_returns(starts: Seq<int>, i: int)
    requires
        forall|a: int, b: int| 0 <= a < b < starts.len() ==> starts[a] < starts[b],
        0 <= i < starts.len(),
    ensures
        spec_pick(starts, SearchDir::Forward, starts[i], false) matches Some(y)
            && spec_pick(starts, SearchDir::Backward, y, false) == Some(starts[i]),
{
    let n = starts.len() as int;
    let x = starts[i];
    lemma_first_ahead_skip(starts, x, false, 0, i + 1);
    if i + 1 < n {
        let y = starts[i + 1];
        assert(first_ahead(starts, x, false, i + 1) == Some(y));
        lemma_last_behind_skip(starts, y, false, i + 1, n);
        assert(last_behind(starts, y, false, i + 1) == Some(x));
    } else {
        assert(first_ahead(starts, x, false, n) is None);
        let y = starts[0];
        lemma_last_behind_skip(starts, y, false, 0, n);
        assert(last_behind(starts, y, false, 0) is None);
        if n > 1 {
            assert(starts[0] < starts[n - 1]);
        }
    }
}

} // verus!

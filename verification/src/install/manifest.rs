//! A manifest of installable backends keyed by name, with a reverse index
//! from file extension to name, and the per-name warning and failure
//! bookkeeping the editor keeps for one kind of backend.

use vstd::prelude::*;

use crate::assoc::{
    keys_distinct, lemma_pairs_map_at, lemma_pairs_map_dom, lemma_pairs_map_push,
    lemma_pairs_map_update, pairs_map,
};
use crate::strs::{ascii_lower, char_to_ascii_lower, collect_chars, str_eq, string_push};

verus! {

/// A manifest entry: one installable backend (a tree-sitter grammar, an LSP
/// server, ...) plus the file extensions that pick it.
pub trait Spec {
    /// The extensions, as text.
    spec fn spec_extensions(&self) -> Seq<Seq<char>>;

    /// Extensions (without leading dot) the auto-load hook uses to pick
    /// this backend when a buffer is opened.
    fn extensions(&self) -> (r: &[String])
        ensures
            r@.map_values(|s: String| s@) == self.spec_extensions(),
    ;
}

/// `s` without its leading `.`s (`str::trim_start_matches('.')`).
pub open spec fn strip_leading_dots(s: Seq<char>) -> Seq<char>
    decreases s.len(),
{
    if s.len() > 0 && s[0] == '.' {
        strip_leading_dots(s.drop_first())
    } else {
        s
    }
}

/// ASCII lower-casing of every char (`str::to_ascii_lowercase`).
pub open spec fn ascii_lowercase(s: Seq<char>) -> Seq<char> {
    s.map_values(|c: char| ascii_lower(c))
}

/// The form an extension is indexed under: no leading dots, ASCII
/// lower case.
pub open spec fn spec_normalize_ext(ext: Seq<char>) -> Seq<char> {
    ascii_lowercase(strip_leading_dots(ext))
}

/// Normalize an extension: drop leading dots, lower-case ASCII letters.
pub fn normalize_ext(ext: &str) -> (r: String)
    ensures
        r@ == spec_normalize_ext(ext@),
{
    let v = collect_chars(ext);
    let n = v.len();
    let mut i: usize = 0;
    assert(v@.subrange(0, n as int) =~= v@);
    while i < n && v[i] == '.'
        invariant
            n == v@.len(),
            i <= n,
            strip_leading_dots(v@) == strip_leading_dots(v@.subrange(i as int, n as int)),
        decreases n - i,
    {
        assert(v@.subrange(i as int, n as int).drop_first() =~= v@.subrange(i + 1, n as int));
        i = i + 1;
    }
    let ghost rest = v@.subrange(i as int, n as int);
    assert(strip_leading_dots(rest) == rest);
    let mut r = String::new();
    let mut k = i;
    while k < n
        invariant
            n == v@.len(),
            i <= k <= n,
            rest == v@.subrange(i as int, n as int),
            r@ == ascii_lowercase(v@.subrange(i as int, k as int)),
        decreases n - k,
    {
        string_push(&mut r, char_to_ascii_lower(v[k]));
        k = k + 1;
        assert(r@ =~= ascii_lowercase(v@.subrange(i as int, k as int)));
    }
    assert(v@.subrange(i as int, n as int) =~= rest);
    r
}

/// Normalizing twice changes nothing more: an indexed extension looks
/// itself up.
pub proof fn law_normalize_ext_idempotent(ext: Seq<char>)
    ensures
        spec_normalize_ext(spec_normalize_ext(ext)) == spec_normalize_ext(ext),
{
    let s = strip_leading_dots(ext);
    lemma_strip_leading_dots(ext);
    let l = ascii_lowercase(s);
    if l.len() > 0 {
        assert(l[0] == ascii_lower(s[0]));
        assert(l[0] != '.');
    }
    assert(strip_leading_dots(l) == l);
    assert(ascii_lowercase(l) =~= l);
}

proof fn lemma_strip_leading_dots(s: Seq<char>)
    ensures
        strip_leading_dots(s).len() > 0 ==> strip_leading_dots(s)[0] != '.',
    decreases s.len(),
{
    if s.len() > 0 && s[0] == '.' {
        lemma_strip_leading_dots(s.drop_first());
    }
}

/// The index after the extensions `exts` of `name` are added in order; an
/// extension already claimed keeps its first owner.
pub open spec fn index_exts(idx: Map<Seq<char>, Seq<char>>, name: Seq<char>, exts: Seq<Seq<char>>) -> Map<
    Seq<char>,
    Seq<char>,
>
    decreases exts.len(),
{
    if exts.len() == 0 {
        idx
    } else {
        let before = index_exts(idx, name, exts.drop_last());
        let k = spec_normalize_ext(exts.last());
        if before.contains_key(k) {
            before
        } else {
            before.insert(k, name)
        }
    }
}

/// The extension index of `entries`, built entry by entry in order.
pub open spec fn index_entries<S: Spec>(entries: Seq<(Seq<char>, S)>) -> Map<Seq<char>, Seq<char>>
    decreases entries.len(),
{
    if entries.len() == 0 {
        Map::empty()
    } else {
        index_exts(
            index_entries(entries.drop_last()),
            entries.last().0,
            entries.last().1.spec_extensions(),
        )
    }
}

/// An extension claimed while a backend is added points at the backend
/// that claimed it first: the one it pointed at before, else the new one;
/// every other extension keeps its owner.
pub proof fn law_index_first_claim_wins(
    idx: Map<Seq<char>, Seq<char>>,
    name: Seq<char>,
    exts: Seq<Seq<char>>,
    k: Seq<char>,
)
    ensures
        (exists|j: int| 0 <= j < exts.len() && spec_normalize_ext(exts[j]) == k) ==> {
            &&& index_exts(idx, name, exts).contains_key(k)
            &&& index_exts(idx, name, exts)[k] == if idx.contains_key(k) {
                idx[k]
            } else {
                name
            }
        },
        !(exists|j: int| 0 <= j < exts.len() && spec_normalize_ext(exts[j]) == k) ==> {
            &&& index_exts(idx, name, exts).contains_key(k) == idx.contains_key(k)
            &&& idx.contains_key(k) ==> index_exts(idx, name, exts)[k] == idx[k]
        },
    decreases exts.len(),
{
    if exts.len() > 0 {
        let init = exts.drop_last();
        law_index_first_claim_wins(idx, name, init, k);
        if exists|j: int| 0 <= j < init.len() && spec_normalize_ext(init[j]) == k {
            let j = choose|j: int| 0 <= j < init.len() && spec_normalize_ext(init[j]) == k;
            assert(spec_normalize_ext(exts[j]) == k);
        }
        if exists|j: int| 0 <= j < exts.len() && spec_normalize_ext(exts[j]) == k {
            let j = choose|j: int| 0 <= j < exts.len() && spec_normalize_ext(exts[j]) == k;
            if j < exts.len() - 1 {
                assert(spec_normalize_ext(init[j]) == k);
            }
        }
    }
}

/// Parsed manifest entries plus an extension -> name reverse index.
/// Generic over the per-entry spec.
#[derive(Debug)]
pub struct Manifest<S> {
    entries: Vec<(String, S)>,
    by_ext: Vec<(String, String)>,
}

impl<S> Manifest<S> {
    /// The entries, names as text, in the order they are kept.
    pub closed spec fn entry_pairs(&self) -> Seq<(Seq<char>, S)> {
        self.entries@.map_values(|e: (String, S)| (e.0@, e.1))
    }

    /// The extension index, as text pairs.
    pub closed spec fn ext_pairs(&self) -> Seq<(Seq<char>, Seq<char>)> {
        self.by_ext@.map_values(|e: (String, String)| (e.0@, e.1@))
    }

    /// Names and indexed extensions each occur once.
    pub closed spec fn wf(&self) -> bool {
        keys_distinct(self.entry_pairs()) && keys_distinct(self.ext_pairs())
    }
}

impl<S> View for Manifest<S> {
    /// The entries by name, and the extension index (normalized extension
    /// to name).
    type V = (Map<Seq<char>, S>, Map<Seq<char>, Seq<char>>);

    open spec fn view(&self) -> (Map<Seq<char>, S>, Map<Seq<char>, Seq<char>>) {
        (pairs_map(self.entry_pairs()), pairs_map(self.ext_pairs()))
    }
}

impl<S> Default for Manifest<S> {
    fn default() -> (m: Self)
        ensures
            m.wf(),
            m@.0 == Map::<Seq<char>, S>::empty(),
            m@.1 == Map::<Seq<char>, Seq<char>>::empty(),
    {
        let m = Manifest { entries: Vec::new(), by_ext: Vec::new() };
        assert(m.entry_pairs() =~= Seq::<(Seq<char>, S)>::empty());
        assert(m.ext_pairs() =~= Seq::<(Seq<char>, Seq<char>)>::empty());
        m
    }
}

/// The entries of a list, names as text.
pub open spec fn entries_view<S>(entries: Seq<(String, S)>) -> Seq<(Seq<char>, S)> {
    entries.map_values(|e: (String, S)| (e.0@, e.1))
}

impl<S: Spec> Manifest<S> {
    /// Index of `key` in the extension index.
    fn find_ext(&self, key: &str) -> (r: Option<usize>)
        requires
            self.wf(),
        ensures
            match r {
                Some(i) => i < self.ext_pairs().len() && self.ext_pairs()[i as int].0 == key@,
                None => !self@.1.contains_key(key@),
            },
    {
        let mut i: usize = 0;
        while i < self.by_ext.len()
            invariant
                i <= self.by_ext@.len(),
                forall|j: int| 0 <= j < i ==> self.ext_pairs()[j].0 != key@,
            decreases self.by_ext@.len() - i,
        {
            if str_eq(self.by_ext[i].0.as_str(), key) {
                return Some(i);
            }
            i = i + 1;
        }
        proof {
            lemma_pairs_map_dom(self.ext_pairs(), key@);
        }
        None
    }

    /// Index of `name` among the entries.
    fn find_entry(&self, name: &str) -> (r: Option<usize>)
        requires
            self.wf(),
        ensures
            match r {
                Some(i) => i < self.entry_pairs().len() && self.entry_pairs()[i as int].0 == name@,
                None => !self@.0.contains_key(name@),
            },
    {
        let mut i: usize = 0;
        while i < self.entries.len()
            invariant
                i <= self.entries@.len(),
                forall|j: int| 0 <= j < i ==> self.entry_pairs()[j].0 != name@,
            decreases self.entries@.len() - i,
        {
            if str_eq(self.entries[i].0.as_str(), name) {
                return Some(i);
            }
            i = i + 1;
        }
        proof {
            lemma_pairs_map_dom(self.entry_pairs(), name@);
        }
        None
    }

    /// Index the extensions `exts` under `name`, first claim winning.
    fn add_to_index(&mut self, name: &str, exts: &[String])
        requires
            old(self).wf(),
        ensures
            final(self).wf(),
            final(self).entry_pairs() == old(self).entry_pairs(),
            final(self)@.1 == index_exts(old(self)@.1, name@, exts@.map_values(|s: String| s@)),
    {
        let ghost names = exts@.map_values(|s: String| s@);
        let mut k: usize = 0;
        while k < exts.len()
            invariant
                self.wf(),
                k <= exts@.len(),
                names == exts@.map_values(|s: String| s@),
                self.entry_pairs() == old(self).entry_pairs(),
                self@.1 == index_exts(old(self)@.1, name@, names.take(k as int)),
            decreases exts@.len() - k,
        {
            let key = normalize_ext(exts[k].as_str());
            let ghost before = self.ext_pairs();
            assert(names.take(k + 1).drop_last() =~= names.take(k as int));
            assert(names.take(k + 1).last() == exts@[k as int]@);
            match self.find_ext(key.as_str()) {
                Some(i) => {
                    proof {
                        lemma_pairs_map_at(self.ext_pairs(), i as int);
                    }
                },
                None => {
                    self.by_ext.push((key, name.to_owned()));
                    proof {
                        assert(self.ext_pairs() =~= before.push((key@, name@)));
                        lemma_pairs_map_push(before, (key@, name@));
                        assert forall|i: int, j: int|
                            0 <= i < j < self.ext_pairs().len() implies self.ext_pairs()[i].0
                            != self.ext_pairs()[j].0 by {
                            if j == before.len() {
                                lemma_pairs_map_dom(before, key@);
                            }
                        }
                    }
                },
            }
            k = k + 1;
        }
        assert(names.take(k as int) =~= names);
    }

    /// Build from entries whose names are distinct (as the keys of a
    /// parsed table are). The extension index is built entry by entry.
    pub fn from_entries(entries: Vec<(String, S)>) -> (m: Self)
        requires
            keys_distinct(entries_view(entries@)),
        ensures
            m.wf(),
            m@.0 == pairs_map(entries_view(entries@)),
            m@.1 == index_entries(entries_view(entries@)),
    {
        let mut m: Manifest<S> = Manifest { entries: Vec::new(), by_ext: Vec::new() };
        let ghost ev = entries_view(entries@);
        assert(m.entry_pairs() =~= Seq::<(Seq<char>, S)>::empty());
        assert(m.ext_pairs() =~= Seq::<(Seq<char>, Seq<char>)>::empty());
        assert(ev.take(0) =~= Seq::<(Seq<char>, S)>::empty());
        let mut i: usize = 0;
        while i < entries.len()
            invariant
                m.wf(),
                i <= entries@.len(),
                ev == entries_view(entries@),
                m.entry_pairs() =~= Seq::<(Seq<char>, S)>::empty(),
                m@.1 == index_entries(ev.take(i as int)),
            decreases entries@.len() - i,
        {
            let exts = entries[i].1.extensions();
            m.add_to_index(entries[i].0.as_str(), exts);
            proof {
                assert(ev.take(i + 1).drop_last() =~= ev.take(i as int));
                assert(ev.take(i + 1).last() == ev[i as int]);
            }
            i = i + 1;
        }
        assert(ev.take(i as int) =~= ev);
        m.entries = entries;
        assert(m.entry_pairs() =~= ev);
        m
    }

    /// The entry for `name`.
    pub fn get(&self, name: &str) -> (r: Option<&S>)
        requires
            self.wf(),
        ensures
            match r {
                Some(s) => self@.0.contains_key(name@) && *s == self@.0[name@],
                None => !self@.0.contains_key(name@),
            },
    {
        match self.find_entry(name) {
            Some(i) => {
                proof {
                    lemma_pairs_map_at(self.entry_pairs(), i as int);
                }
                Some(&self.entries[i].1)
            },
            None => None,
        }
    }

    /// Reverse-index lookup: `"rs"` -> `"rust"`, the extension normalized
    /// first. An extension claimed by several entries resolves to the one
    /// indexed first.
    pub fn lookup_by_ext(&self, ext: &str) -> (r: Option<&str>)
        requires
            self.wf(),
        ensures
            match r {
                Some(n) => self@.1.contains_key(spec_normalize_ext(ext@)) && n@ == self@.1[spec_normalize_ext(ext@)],
                None => !self@.1.contains_key(spec_normalize_ext(ext@)),
            },
    {
        let key = normalize_ext(ext);
        match self.find_ext(key.as_str()) {
            Some(i) => {
                proof {
                    lemma_pairs_map_at(self.ext_pairs(), i as int);
                }
                Some(self.by_ext[i].1.as_str())
            },
            None => None,
        }
    }

    /// Register or replace an entry at runtime; its extensions join the
    /// index where no entry claims them yet.
    pub fn insert(&mut self, name: String, spec: S)
        requires
            old(self).wf(),
        ensures
            final(self).wf(),
            final(self)@.0 == old(self)@.0.insert(name@, spec),
            final(self)@.1 == index_exts(old(self)@.1, name@, spec.spec_extensions()),
    {
        self.add_to_index(name.as_str(), spec.extensions());
        let ghost before = self.entry_pairs();
        match self.find_entry(name.as_str()) {
            Some(i) => {
                self.entries[i] = (name, spec);
                proof {
                    assert(self.entry_pairs() =~= before.update(i as int, (before[i as int].0, spec)));
                    lemma_pairs_map_update(before, i as int, spec);
                    assert forall|a: int, b: int|
                        0 <= a < b < self.entry_pairs().len() implies self.entry_pairs()[a].0
                        != self.entry_pairs()[b].0 by {
                        assert(self.entry_pairs()[a].0 == before[a].0);
                        assert(self.entry_pairs()[b].0 == before[b].0);
                    }
                }
            },
            None => {
                let ghost key = name@;
                self.entries.push((name, spec));
                proof {
                    assert(self.entry_pairs() =~= before.push((key, spec)));
                    lemma_pairs_map_push(before, (key, spec));
                    assert forall|a: int, b: int|
                        0 <= a < b < self.entry_pairs().len() implies self.entry_pairs()[a].0
                        != self.entry_pairs()[b].0 by {
                        if b == before.len() {
                            lemma_pairs_map_dom(before, key);
                        }
                    }
                }
            },
        }
    }

    proof fn lemma_dom_len(&self)
        requires
            self.wf(),
        ensures
            self@.0.dom().len() == self.entries@.len(),
    {
        let ps = self.entry_pairs();
        let ks = ps.map_values(|p: (Seq<char>, S)| p.0);
        assert forall|k: Seq<char>| self@.0.dom().contains(k) <==> ks.to_set().contains(k) by {
            lemma_pairs_map_dom(ps, k);
            if self@.0.dom().contains(k) {
                let i = choose|i: int| 0 <= i < ps.len() && ps[i].0 == k;
                assert(ks[i] == k);
            }
            if ks.to_set().contains(k) {
                let i = choose|i: int| 0 <= i < ks.len() && ks[i] == k;
                assert(ps[i].0 == k);
            }
        }
        assert(self@.0.dom() =~= ks.to_set());
        assert forall|i: int, j: int|
            0 <= i < ks.len() && 0 <= j < ks.len() && i != j implies ks[i] != ks[j] by {
            if i < j {
                assert(ps[i].0 != ps[j].0);
            } else {
                assert(ps[j].0 != ps[i].0);
            }
        }
        assert(ks.no_duplicates());
        ks.unique_seq_to_set();
    }

    pub fn is_empty(&self) -> (b: bool)
        requires
            self.wf(),
        ensures
            b == (self@.0.dom() == Set::<Seq<char>>::empty()),
    {
        proof {
            if self.entries@.len() > 0 {
                lemma_pairs_map_at(self.entry_pairs(), 0);
                assert(self@.0.dom().contains(self.entry_pairs()[0].0));
            } else {
                assert(self.entry_pairs() =~= Seq::<(Seq<char>, S)>::empty());
                assert(self@.0.dom() =~= Set::<Seq<char>>::empty());
            }
        }
        self.entries.len() == 0
    }

    pub fn len(&self) -> (n: usize)
        requires
            self.wf(),
        ensures
            n == self@.0.dom().len(),
    {
        proof {
            self.lemma_dom_len();
        }
        self.entries.len()
    }

    /// Every entry once, as (name, spec).
    pub fn iter(&self) -> (r: Vec<(&str, &S)>)
        requires
            self.wf(),
        ensures
            r@.len() == self@.0.dom().len(),
            forall|i: int|
                0 <= i < r@.len() ==> self@.0.contains_key(#[trigger] r@[i].0@) && self@.0[r@[i].0@]
                    == *r@[i].1,
            forall|i: int, j: int| 0 <= i < j < r@.len() ==> r@[i].0@ != r@[j].0@,
    {
        let mut r: Vec<(&str, &S)> = Vec::new();
        let mut i: usize = 0;
        while i < self.entries.len()
            invariant
                self.wf(),
                i <= self.entries@.len(),
                r@.len() == i,
                forall|j: int|
                    0 <= j < i ==> r@[j].0@ == self.entry_pairs()[j].0 && *r@[j].1
                        == self.entry_pairs()[j].1,
            decreases self.entries@.len() - i,
        {
            r.push((self.entries[i].0.as_str(), &self.entries[i].1));
            i = i + 1;
        }
        proof {
            assert forall|j: int|
                0 <= j < r@.len() implies self@.0.contains_key(#[trigger] r@[j].0@) && self@.0[r@[j].0@]
                == *r@[j].1 by {
                lemma_pairs_map_at(self.entry_pairs(), j);
            }
        }
        proof {
            self.lemma_dom_len();
        }
        r
    }
}

/// The names a list holds.
pub open spec fn name_set(v: Seq<String>) -> Set<Seq<char>> {
    Set::new(|n: Seq<char>| exists|i: int| 0 <= i < v.len() && v[i]@ == n)
}

/// Whether `v` holds `name`.
fn holds_name(v: &Vec<String>, name: &str) -> (b: bool)
    ensures
        b == name_set(v@).contains(name@),
{
    let mut i: usize = 0;
    while i < v.len()
        invariant
            i <= v@.len(),
            forall|j: int| 0 <= j < i ==> v@[j]@ != name@,
        decreases v@.len() - i,
    {
        if str_eq(v[i].as_str(), name) {
            return true;
        }
        i = i + 1;
    }
    false
}

/// Add `name` to `v` unless it is there.
fn add_name(v: &mut Vec<String>, name: &str)
    ensures
        name_set(final(v)@) == name_set(old(v)@).insert(name@),
{
    if !holds_name(v, name) {
        let ghost before = v@;
        v.push(name.to_owned());
        proof {
            assert forall|n: Seq<char>|
                name_set(v@).contains(n) <==> name_set(before).insert(name@).contains(n) by {
                if name_set(before).contains(n) {
                    let i = choose|i: int| 0 <= i < before.len() && before[i]@ == n;
                    assert(v@[i]@ == n);
                }
                if n == name@ {
                    assert(v@[before.len() as int]@ == n);
                }
                if name_set(v@).contains(n) {
                    let i = choose|i: int| 0 <= i < v@.len() && v@[i]@ == n;
                    if i < before.len() {
                        assert(before[i]@ == n);
                    }
                }
            }
            assert(name_set(v@) =~= name_set(before).insert(name@));
        }
    }
}

/// Drop every copy of `name` from `v`.
fn drop_name(v: &mut Vec<String>, name: &str)
    ensures
        name_set(final(v)@) == name_set(old(v)@).remove(name@),
{
    let mut kept: Vec<String> = Vec::new();
    let mut i: usize = 0;
    while i < v.len()
        invariant
            i <= v@.len(),
            forall|n: Seq<char>|
                name_set(kept@).contains(n) <==> (n != name@ && exists|j: int|
                    0 <= j < i && v@[j]@ == n),
        decreases v@.len() - i,
    {
        if !str_eq(v[i].as_str(), name) {
            let ghost before = kept@;
            kept.push(v[i].clone());
            proof {
                assert forall|n: Seq<char>|
                    name_set(kept@).contains(n) <==> (n != name@ && exists|j: int|
                        0 <= j < i + 1 && v@[j]@ == n) by {
                    if name_set(kept@).contains(n) {
                        let a = choose|a: int| 0 <= a < kept@.len() && kept@[a]@ == n;
                        if a < before.len() {
                            assert(name_set(before).contains(n));
                        } else {
                            assert(v@[i as int]@ == n);
                        }
                    }
                    if n != name@ && exists|j: int| 0 <= j < i + 1 && v@[j]@ == n {
                        let j = choose|j: int| 0 <= j < i + 1 && v@[j]@ == n;
                        if j < i {
                            assert(exists|j: int| 0 <= j < i && v@[j]@ == n);
                            assert(name_set(before).contains(n));
                            let a = choose|a: int| 0 <= a < before.len() && before[a]@ == n;
                            assert(kept@[a]@ == n);
                        } else {
                            assert(kept@[before.len() as int]@ == n);
                        }
                    }
                }
            }
        } else {
            proof {
                assert forall|n: Seq<char>|
                    name_set(kept@).contains(n) <==> (n != name@ && exists|j: int|
                        0 <= j < i + 1 && v@[j]@ == n) by {
                    if n != name@ && exists|j: int| 0 <= j < i + 1 && v@[j]@ == n {
                        let j = choose|j: int| 0 <= j < i + 1 && v@[j]@ == n;
                        assert(j < i);
                    }
                }
            }
        }
        i = i + 1;
    }
    proof {
        assert(name_set(kept@) =~= name_set(v@).remove(name@));
    }
    *v = kept;
}

/// Editor-side workflow state for one language backend: the manifest plus
/// the auto-install toggle and the per-name "already warned" / "already
/// failed auto-install" lists.
#[derive(Debug)]
pub struct LanguageBackend<S> {
    pub manifest: Manifest<S>,
    /// When true, opening a file whose extension matches an unbuilt entry
    /// triggers a one-shot install attempt.
    pub auto_install: bool,
    /// Names already surfaced in a "not installed" notice.
    pub warned_missing: Vec<String>,
    /// Names whose auto-install was tried and failed.
    pub failed_auto_installs: Vec<String>,
}

impl<S> LanguageBackend<S> {
    /// The names warned about.
    pub open spec fn warned(&self) -> Set<Seq<char>> {
        name_set(self.warned_missing@)
    }

    /// The names whose auto-install failed.
    pub open spec fn failed(&self) -> Set<Seq<char>> {
        name_set(self.failed_auto_installs@)
    }

    pub fn new(manifest: Manifest<S>) -> (b: Self)
        ensures
            b.manifest == manifest,
            b.auto_install,
            b.warned() == Set::<Seq<char>>::empty(),
            b.failed() == Set::<Seq<char>>::empty(),
    {
        let b = LanguageBackend {
            manifest,
            auto_install: true,
            warned_missing: Vec::new(),
            failed_auto_installs: Vec::new(),
        };
        assert(b.warned() =~= Set::<Seq<char>>::empty());
        assert(b.failed() =~= Set::<Seq<char>>::empty());
        b
    }

    /// Drop the one-shot trackers for `name`, so future opens can warn or
    /// retry again.
    pub fn forget(&mut self, name: &str)
        ensures
            final(self).manifest == old(self).manifest,
            final(self).auto_install == old(self).auto_install,
            final(self).warned() == old(self).warned().remove(name@),
            final(self).failed() == old(self).failed().remove(name@),
    {
        drop_name(&mut self.warned_missing, name);
        drop_name(&mut self.failed_auto_installs, name);
    }

    /// "Should I warn for this name?": true exactly when `name` has not
    /// been warned about yet; it is recorded on the way.
    pub fn first_warn(&mut self, name: &str) -> (b: bool)
        ensures
            b == !old(self).warned().contains(name@),
            final(self).manifest == old(self).manifest,
            final(self).auto_install == old(self).auto_install,
            final(self).warned() == old(self).warned().insert(name@),
            final(self).failed() == old(self).failed(),
    {
        let seen = holds_name(&self.warned_missing, name);
        add_name(&mut self.warned_missing, name);
        !seen
    }

    pub fn mark_failed(&mut self, name: &str)
        ensures
            final(self).manifest == old(self).manifest,
            final(self).auto_install == old(self).auto_install,
            final(self).warned() == old(self).warned(),
            final(self).failed() == old(self).failed().insert(name@),
    {
        add_name(&mut self.failed_auto_installs, name);
    }

    pub fn already_failed(&self, name: &str) -> (b: bool)
        ensures
            b == self.failed().contains(name@),
    {
        holds_name(&self.failed_auto_installs, name)
    }
}

/// A name is warned about once: right after `first_warn` records it, asking
/// again says no, and after `forget` it says yes again.
pub proof fn law_warn_once_until_forgotten(warned: Set<Seq<char>>, name: Seq<char>)
    ensures
        warned.insert(name).contains(name),
        !warned.insert(name).remove(name).contains(name),
{
}

/// A failure mark stays until `forget` drops it, and marks on other names
/// leave it alone.
pub proof fn law_failed_until_forgotten(failed: Set<Seq<char>>, name: Seq<char>, other: Seq<char>)
    requires
        other != name,
    ensures
        failed.insert(name).contains(name),
        failed.insert(name).insert(other).contains(name),
        !failed.insert(name).remove(name).contains(name),
        failed.insert(name).remove(other).contains(name),
{
}

/// Which kind of backend a notice is about.
#[derive(Debug, Clone, Copy, PartialEq, Eq, Structural)]
pub enum BackendKind {
    Grammar,
    LspServer,
}

/// What to do about a file whose backend is in the manifest but not
/// installed.
#[derive(Debug)]
pub enum MissingBackend {
    /// Install it now, after showing `notice`.
    Install { notice: String },
    /// Tell the user once how to install it.
    Warn { notice: String },
    /// Nothing: already warned about, or its auto-install already failed.
    Quiet,
}

/// The notice shown before an auto-install of `name`.
pub open spec fn installing_notice(kind: BackendKind, name: Seq<char>) -> Seq<char> {
    match kind {
        BackendKind::Grammar => "installing tree-sitter grammar `"@ + name + "`…"@,
        BackendKind::LspServer => "installing lsp server `"@ + name + "`…"@,
    }
}

/// The notice pointing at the manual install of `name`.
pub open spec fn missing_notice(kind: BackendKind, name: Seq<char>) -> Seq<char> {
    match kind {
        BackendKind::Grammar => "grammar `"@ + name + "` not installed — run `(grammar-install '"@ + name
            + ")` or `(set-grammar-auto-install t)`"@,
        BackendKind::LspServer => "lsp server `"@ + name + "` not installed — run `(lsp-install '"@
            + name + ")` or `(set-lsp-auto-install t)`"@,
    }
}

/// The notice after the auto-install of `name` failed with `error`.
pub open spec fn failed_notice(kind: BackendKind, name: Seq<char>, error: Seq<char>) -> Seq<char> {
    match kind {
        BackendKind::Grammar => "auto-install of `"@ + name + "` failed: "@ + error
            + " — run `(grammar-install '"@ + name
            + ")` manually or `(set-grammar-auto-install nil)` to silence this"@,
        BackendKind::LspServer => "auto-install of `"@ + name + "` failed: "@ + error
            + " — run `(lsp-install '"@ + name
            + ")` manually or `(set-lsp-auto-install nil)` to silence this"@,
    }
}

fn concat3(a: &str, b: &str, c: &str) -> (s: String)
    ensures
        s@ == a@ + b@ + c@,
{
    let mut s = a.to_owned();
    s.append(b);
    s.append(c);
    s
}

impl<S> LanguageBackend<S> {
    /// A file's backend `name` is in the manifest but not installed: with
    /// auto-install on and no failed attempt yet, install it; otherwise
    /// warn the first time only.
    pub fn on_missing(&mut self, kind: BackendKind, name: &str) -> (r: MissingBackend)
        ensures
            final(self).manifest == old(self).manifest,
            final(self).auto_install == old(self).auto_install,
            final(self).failed() == old(self).failed(),
            old(self).auto_install && !old(self).failed().contains(name@) ==> {
                &&& (r matches MissingBackend::Install { notice } && notice@ == installing_notice(
                    kind,
                    name@,
                ))
                &&& final(self).warned() == old(self).warned()
            },
            !(old(self).auto_install && !old(self).failed().contains(name@)) ==> {
                &&& final(self).warned() == old(self).warned().insert(name@)
                &&& !old(self).warned().contains(name@) ==> (r matches MissingBackend::Warn { notice }
                    && notice@ == missing_notice(kind, name@))
                &&& old(self).warned().contains(name@) ==> r is Quiet
            },
    {
        if self.auto_install && !self.already_failed(name) {
            let notice = match kind {
                BackendKind::Grammar => concat3("installing tree-sitter grammar `", name, "`…"),
                BackendKind::LspServer => concat3("installing lsp server `", name, "`…"),
            };
            return MissingBackend::Install { notice };
        }
        if self.first_warn(name) {
            let notice = match kind {
                BackendKind::Grammar => {
                    let mut n = concat3("grammar `", name, "` not installed — run `(grammar-install '");
                    n.append(name);
                    n.append(")` or `(set-grammar-auto-install t)`");
                    n
                },
                BackendKind::LspServer => {
                    let mut n = concat3("lsp server `", name, "` not installed — run `(lsp-install '");
                    n.append(name);
                    n.append(")` or `(set-lsp-auto-install t)`");
                    n
                },
            };
            MissingBackend::Warn { notice }
        } else {
            MissingBackend::Quiet
        }
    }

    /// The auto-install of `name` failed with `error`: remember it, so it
    /// is not retried on every open, and return the notice to show.
    pub fn on_install_failed(&mut self, kind: BackendKind, name: &str, error: &str) -> (notice: String)
        ensures
            final(self).manifest == old(self).manifest,
            final(self).auto_install == old(self).auto_install,
            final(self).warned() == old(self).warned(),
            final(self).failed() == old(self).failed().insert(name@),
            notice@ == failed_notice(kind, name@, error@),
    {
        self.mark_failed(name);
        let mut n = concat3("auto-install of `", name, "` failed: ");
        n.append(error);
        match kind {
            BackendKind::Grammar => {
                n.append(" — run `(grammar-install '");
                n.append(name);
                n.append(")` manually or `(set-grammar-auto-install nil)` to silence this");
            },
            BackendKind::LspServer => {
                n.append(" — run `(lsp-install '");
                n.append(name);
                n.append(")` manually or `(set-lsp-auto-install nil)` to silence this");
            },
        }
        n
    }
}

} // verus!

//! The registry of loaded tree-sitter grammars, indexed by file extension
//! (lower case, no leading dot). Loading a grammar's shared library and
//! compiling its query is the caller's work; the registry indexes the
//! result and answers which grammar a file's extension picks.

use vstd::prelude::*;

use crate::assoc::{
    keys_distinct, lemma_pairs_map_at, lemma_pairs_map_dom, lemma_pairs_map_len,
    lemma_pairs_map_push, lemma_pairs_map_update, pairs_map,
};
use crate::highlight::{file_extension, last_part, names_file, spec_extension};
use crate::install::manifest::{ascii_lowercase, normalize_ext, spec_normalize_ext};
use crate::strs::{char_to_ascii_lower, collect_chars, chars_to_string, str_eq};

verus! {

/// Loaded grammars (of type `G`) by extension.
#[derive(Debug)]
pub struct TsRegistry<G> {
    grammars: Vec<G>,
    by_ext: Vec<(String, usize)>,
}

/// The index after the extensions `exts` are pointed at `g`, in order;
/// a later registration of an extension replaces an earlier one.
pub open spec fn index_grammar<G>(m: Map<Seq<char>, G>, exts: Seq<Seq<char>>, g: G) -> Map<Seq<char>, G>
    decreases exts.len(),
{
    if exts.len() == 0 {
        m
    } else {
        index_grammar(m, exts.drop_last(), g).insert(spec_normalize_ext(exts.last()), g)
    }
}

impl<G> TsRegistry<G> {
    pub closed spec fn pairs(&self) -> Seq<(Seq<char>, G)> {
        self.by_ext@.map_values(|e: (String, usize)| (e.0@, self.grammars@[e.1 as int]))
    }

    /// Each extension occurs once and points at a loaded grammar.
    pub closed spec fn wf(&self) -> bool {
        &&& keys_distinct(self.pairs())
        &&& forall|i: int| 0 <= i < self.by_ext@.len() ==> (#[trigger] self.by_ext@[i]).1 < self.grammars@.len()
    }
}

impl<G> View for TsRegistry<G> {
    type V = Map<Seq<char>, G>;

    open spec fn view(&self) -> Map<Seq<char>, G> {
        pairs_map(self.pairs())
    }
}

impl<G> TsRegistry<G> {
    pub fn new() -> (r: Self)
        ensures
            r.wf(),
            r@ == Map::<Seq<char>, G>::empty(),
    {
        let r = TsRegistry { grammars: Vec::new(), by_ext: Vec::new() };
        assert(r.pairs() =~= Seq::<(Seq<char>, G)>::empty());
        r
    }

    fn find(&self, key: &str) -> (r: Option<usize>)
        requires
            self.wf(),
        ensures
            match r {
                Some(i) => i < self.pairs().len() && self.pairs()[i as int].0 == key@,
                None => !self@.contains_key(key@),
            },
    {
        let mut i: usize = 0;
        while i < self.by_ext.len()
            invariant
                i <= self.by_ext@.len(),
                forall|j: int| 0 <= j < i ==> self.pairs()[j].0 != key@,
            decreases self.by_ext@.len() - i,
        {
            if str_eq(self.by_ext[i].0.as_str(), key) {
                return Some(i);
            }
            i = i + 1;
        }
        proof {
            lemma_pairs_map_dom(self.pairs(), key@);
        }
        None
    }

    /// Index what loading a grammar gave: a grammar that loaded is indexed
    /// as by [`Self::register`]; a load error is handed back and leaves the
    /// registry untouched.
    pub fn register_loaded<E>(&mut self, extensions: &[String], loaded: Result<G, E>) -> (r: Result<(), E>)
        requires
            old(self).wf(),
        ensures
            final(self).wf(),
            match loaded {
                Ok(g) => r is Ok && final(self)@ == index_grammar(
                    old(self)@,
                    extensions@.map_values(|s: String| s@),
                    g,
                ),
                Err(e) => r == Err::<(), E>(e) && final(self)@ == old(self)@,
            },
    {
        match loaded {
            Ok(g) => {
                self.register(extensions, g);
                Ok(())
            },
            Err(e) => Err(e),
        }
    }

    /// Index a loaded grammar under every extension in `extensions`
    /// (leading `.` optional, normalized to lower case); an extension
    /// registered before now points at this grammar.
    pub fn register(&mut self, extensions: &[String], grammar: G)
        requires
            old(self).wf(),
        ensures
            final(self).wf(),
            final(self)@ == index_grammar(old(self)@, extensions@.map_values(|s: String| s@), grammar),
    {
        let gi = self.grammars.len();
        let ghost before = self.pairs();
        self.grammars.push(grammar);
        proof {
            assert(self.pairs() =~= before);
        }
        let ghost names = extensions@.map_values(|s: String| s@);
        let mut k: usize = 0;
        while k < extensions.len()
            invariant
                self.wf(),
                gi < self.grammars@.len(),
                self.grammars@[gi as int] == grammar,
                k <= extensions@.len(),
                names == extensions@.map_values(|s: String| s@),
                self@ == index_grammar(old(self)@, names.take(k as int), grammar),
            decreases extensions@.len() - k,
        {
            let key = normalize_ext(extensions[k].as_str());
            let ghost ps = self.pairs();
            proof {
                assert(names.take(k + 1).drop_last() =~= names.take(k as int));
                assert(names.take(k + 1).last() == extensions@[k as int]@);
            }
            match self.find(key.as_str()) {
                Some(i) => {
                    let ghost old_by = self.by_ext@;
                    let name = self.by_ext[i].0.clone();
                    self.by_ext.set(i, (name, gi));
                    proof {
                        assert(self.pairs() =~= ps.update(i as int, (ps[i as int].0, grammar)));
                        lemma_pairs_map_update(ps, i as int, grammar);
                        assert forall|a: int, b: int|
                            0 <= a < b < self.pairs().len() implies self.pairs()[a].0
                            != self.pairs()[b].0 by {
                            assert(self.pairs()[a].0 == ps[a].0);
                            assert(self.pairs()[b].0 == ps[b].0);
                        }
                        assert forall|j: int| 0 <= j < self.by_ext@.len() implies (
                        #[trigger] self.by_ext@[j]).1 < self.grammars@.len() by {
                            if j != i {
                                assert(self.by_ext@[j] == old_by[j]);
                            }
                        }
                    }
                },
                None => {
                    let ghost k2 = key@;
                    self.by_ext.push((key, gi));
                    proof {
                        assert(self.pairs() =~= ps.push((k2, grammar)));
                        lemma_pairs_map_push(ps, (k2, grammar));
                        assert forall|a: int, b: int|
                            0 <= a < b < self.pairs().len() implies self.pairs()[a].0
                            != self.pairs()[b].0 by {
                            if b == ps.len() {
                                lemma_pairs_map_dom(ps, k2);
                            }
                        }
                    }
                },
            }
            k = k + 1;
        }
        proof {
            assert(names.take(k as int) =~= names);
        }
    }

    /// The grammar for a file name, matched on its lower-cased extension;
    /// none when no registered grammar matches. The file name is the path's
    /// last part.
    pub fn highlighter_for_path(&self, path: &str) -> (r: Option<&G>)
        requires
            self.wf(),
        ensures
            names_file(path@) ==> match spec_extension(last_part(path@)) {
                Some(e) => match r {
                    Some(g) => self@.contains_key(ascii_lowercase(e)) && *g == self@[ascii_lowercase(e)],
                    None => !self@.contains_key(ascii_lowercase(e)),
                },
                None => r is None,
            },
    {
        let name = match crate::highlight::path_file_name(path) {
            Some(n) => n,
            None => {
                return None;
            },
        };
        let ext = match file_extension(name.as_str()) {
            Some(e) => e,
            None => {
                return None;
            },
        };
        let v = collect_chars(ext);
        let mut lower: Vec<char> = Vec::new();
        let mut i: usize = 0;
        while i < v.len()
            invariant
                v@ == ext@,
                i <= v@.len(),
                lower@ == ascii_lowercase(ext@.take(i as int)),
            decreases v@.len() - i,
        {
            lower.push(char_to_ascii_lower(v[i]));
            i = i + 1;
            assert(lower@ =~= ascii_lowercase(ext@.take(i as int)));
        }
        assert(ext@.take(i as int) =~= ext@);
        let key = chars_to_string(&lower);
        match self.find(key.as_str()) {
            Some(i) => {
                proof {
                    lemma_pairs_map_at(self.pairs(), i as int);
                }
                Some(&self.grammars[self.by_ext[i].1])
            },
            None => None,
        }
    }

    /// Number of extension mappings (several extensions may share a
    /// grammar).
    pub fn len(&self) -> (n: usize)
        requires
            self.wf(),
        ensures
            n == self@.dom().len(),
    {
        proof {
            lemma_pairs_map_len(self.pairs());
        }
        self.by_ext.len()
    }

    pub fn is_empty(&self) -> (b: bool)
        requires
            self.wf(),
        ensures
            b == (self@.dom().len() == 0),
    {
        proof {
            lemma_pairs_map_len(self.pairs());
        }
        self.by_ext.len() == 0
    }
}

} // verus!

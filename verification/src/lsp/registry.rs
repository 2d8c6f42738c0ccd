//! Editor-side registry of running LSP clients, indexed by symbolic name:
//! which client a name is served by (so a second buffer of the same
//! language reuses the server) and the position encoding each negotiated.
//! Spawning and shutting clients down is the caller's work; the registry
//! says when to and records the outcome.

use vstd::prelude::*;

use crate::assoc::{
    keys_distinct, lemma_pairs_map_at, lemma_pairs_map_dom, lemma_pairs_map_push,
    lemma_pairs_map_remove, pairs_map,
};
use crate::lsp::position::Encoding;
use crate::strs::str_eq;

verus! {

/// Identifier the LSP runtime assigns to a client task.
#[derive(Debug, Clone, Copy, PartialEq, Eq, Hash, Structural)]
pub struct LspClientId(pub u64);

/// A running client and the encoding it negotiated.
#[derive(Debug, Clone, Copy, PartialEq, Eq, Structural)]
pub struct RunningClient {
    pub id: LspClientId,
    pub encoding: Encoding,
}

/// Running clients by name.
#[derive(Debug)]
pub struct LspRegistry {
    by_name: Vec<(String, RunningClient)>,
}

impl LspRegistry {
    pub closed spec fn pairs(&self) -> Seq<(Seq<char>, RunningClient)> {
        self.by_name@.map_values(|e: (String, RunningClient)| (e.0@, e.1))
    }

    /// No name occurs twice.
    pub closed spec fn wf(&self) -> bool {
        keys_distinct(self.pairs())
    }
}

impl View for LspRegistry {
    type V = Map<Seq<char>, RunningClient>;

    open spec fn view(&self) -> Map<Seq<char>, RunningClient> {
        pairs_map(self.pairs())
    }
}

/// What the runtime answered to a spawn request: the new client and its
/// encoding once `initialize` succeeded, or why it failed.
#[derive(Debug)]
pub enum SpawnReply {
    Started { client: LspClientId, encoding: Encoding },
    Failed(String),
}

/// Whether some name in `m` is served by client `id`.
pub open spec fn serves(m: Map<Seq<char>, RunningClient>, id: LspClientId) -> bool {
    exists|k: Seq<char>| m.contains_key(k) && m[k].id == id
}

/// The entries of `m` whose client is not `id`.
pub open spec fn without_client(m: Map<Seq<char>, RunningClient>, id: LspClientId) -> Map<
    Seq<char>,
    RunningClient,
> {
    m.restrict(m.dom().filter(|k: Seq<char>| m[k].id != id))
}

impl LspRegistry {
    pub fn new() -> (r: Self)
        ensures
            r.wf(),
            r@ == Map::<Seq<char>, RunningClient>::empty(),
    {
        let r = LspRegistry { by_name: Vec::new() };
        assert(r.pairs() =~= Seq::<(Seq<char>, RunningClient)>::empty());
        r
    }

    fn find(&self, name: &str) -> (r: Option<usize>)
        requires
            self.wf(),
        ensures
            match r {
                Some(i) => i < self.pairs().len() && self.pairs()[i as int].0 == name@,
                None => !self@.contains_key(name@),
            },
    {
        let mut i: usize = 0;
        while i < self.by_name.len()
            invariant
                i <= self.by_name@.len(),
                forall|j: int| 0 <= j < i ==> self.pairs()[j].0 != name@,
            decreases self.by_name@.len() - i,
        {
            if str_eq(self.by_name[i].0.as_str(), name) {
                return Some(i);
            }
            i = i + 1;
        }
        proof {
            lemma_pairs_map_dom(self.pairs(), name@);
        }
        None
    }

    /// The client serving `name`, if one is running.
    pub fn get(&self, name: &str) -> (r: Option<RunningClient>)
        requires
            self.wf(),
        ensures
            r == (if self@.contains_key(name@) {
                Some(self@[name@])
            } else {
                None::<RunningClient>
            }),
    {
        match self.find(name) {
            Some(i) => {
                proof {
                    lemma_pairs_map_at(self.pairs(), i as int);
                }
                Some(self.by_name[i].1)
            },
            None => None,
        }
    }

    /// After a spawn request for `name` was answered (`None` when the
    /// runtime did not answer in time): a started client is recorded and
    /// returned; otherwise the reason. A name already running is returned
    /// by [`LspRegistry::get`] without spawning.
    pub fn settle_spawn(&mut self, name: &str, reply: Option<SpawnReply>) -> (r: Result<
        RunningClient,
        String,
    >)
        requires
            old(self).wf(),
            !old(self)@.contains_key(name@),
        ensures
            final(self).wf(),
            match reply {
                Some(SpawnReply::Started { client, encoding }) => {
                    &&& r == Ok::<RunningClient, String>((RunningClient { id: client, encoding }))
                    &&& final(self)@ == old(self)@.insert(name@, (RunningClient { id: client, encoding }))
                },
                Some(SpawnReply::Failed(msg)) => {
                    &&& (r matches Err(e) && e@ == msg@)
                    &&& final(self)@ == old(self)@
                },
                None => {
                    &&& (r matches Err(e) && e@ == "lsp runtime did not reply within 6s"@)
                    &&& final(self)@ == old(self)@
                },
            },
    {
        match reply {
            Some(SpawnReply::Started { client, encoding }) => {
                let c = RunningClient { id: client, encoding };
                let ghost before = self.pairs();
                self.by_name.push((name.to_owned(), c));
                proof {
                    assert(self.pairs() =~= before.push((name@, c)));
                    lemma_pairs_map_push(before, (name@, c));
                    lemma_pairs_map_dom(before, name@);
                }
                Ok(c)
            },
            Some(SpawnReply::Failed(msg)) => Err(msg),
            None => Err("lsp runtime did not reply within 6s".to_owned()),
        }
    }

    /// Stop tracking `name`; the client to send `shutdown` to, if it was
    /// running.
    pub fn shutdown(&mut self, name: &str) -> (r: Option<LspClientId>)
        requires
            old(self).wf(),
        ensures
            final(self).wf(),
            final(self)@ == old(self)@.remove(name@),
            r == (if old(self)@.contains_key(name@) {
                Some(old(self)@[name@].id)
            } else {
                None::<LspClientId>
            }),
    {
        match self.find(name) {
            Some(i) => {
                let ghost before = self.pairs();
                proof {
                    lemma_pairs_map_at(before, i as int);
                }
                let (_, c) = self.by_name.remove(i);
                proof {
                    assert(self.pairs() =~= before.remove(i as int));
                    lemma_pairs_map_remove(before, i as int);
                }
                Some(c.id)
            },
            None => {
                proof {
                    assert(self@ =~= self@.remove(name@));
                }
                None
            },
        }
    }

    /// Stop tracking every client; the clients to send `shutdown` to.
    pub fn shutdown_all(&mut self) -> (ids: Vec<LspClientId>)
        requires
            old(self).wf(),
        ensures
            final(self).wf(),
            final(self)@ == Map::<Seq<char>, RunningClient>::empty(),
            ids@.len() == old(self)@.dom().len(),
            forall|k: Seq<char>| #[trigger]
                old(self)@.contains_key(k) ==> ids@.contains(old(self)@[k].id),
            forall|i: int| 0 <= i < ids@.len() ==> serves(old(self)@, #[trigger] ids@[i]),
    {
        let ghost before = self.pairs();
        proof {
            crate::assoc::lemma_pairs_map_len(before);
        }
        let mut ids: Vec<LspClientId> = Vec::new();
        let mut i: usize = 0;
        while i < self.by_name.len()
            invariant
                self.wf(),
                self.pairs() == before,
                i <= self.by_name@.len(),
                ids@.len() == i,
                forall|j: int| 0 <= j < i ==> ids@[j] == #[trigger] before[j].1.id,
            decreases self.by_name@.len() - i,
        {
            ids.push(self.by_name[i].1.id);
            i = i + 1;
        }
        proof {
            assert forall|k: Seq<char>| #[trigger]
                pairs_map(before).contains_key(k) implies ids@.contains(pairs_map(before)[k].id) by {
                lemma_pairs_map_dom(before, k);
                let j = choose|j: int| 0 <= j < before.len() && before[j].0 == k;
                lemma_pairs_map_at(before, j);
                assert(ids@[j] == before[j].1.id);
            }
            assert forall|j: int| 0 <= j < ids@.len() implies serves(old(self)@, #[trigger] ids@[j]) by {
                lemma_pairs_map_at(before, j);
                let k = before[j].0;
                assert(old(self)@.contains_key(k) && old(self)@[k].id == ids@[j]);
            }
        }
        self.by_name = Vec::new();
        assert(self.pairs() =~= Seq::<(Seq<char>, RunningClient)>::empty());
        ids
    }

    /// Every running client with its name.
    pub fn iter(&self) -> (r: Vec<(&str, RunningClient)>)
        requires
            self.wf(),
        ensures
            r@.len() == self@.dom().len(),
            forall|i: int|
                0 <= i < r@.len() ==> self@.contains_key(#[trigger] r@[i].0@) && self@[r@[i].0@]
                    == r@[i].1,
            forall|i: int, j: int| 0 <= i < j < r@.len() ==> r@[i].0@ != r@[j].0@,
    {
        proof {
            crate::assoc::lemma_pairs_map_len(self.pairs());
        }
        let mut r: Vec<(&str, RunningClient)> = Vec::new();
        let mut i: usize = 0;
        while i < self.by_name.len()
            invariant
                self.wf(),
                i <= self.by_name@.len(),
                r@.len() == i,
                forall|j: int|
                    0 <= j < i ==> r@[j].0@ == self.pairs()[j].0 && r@[j].1 == self.pairs()[j].1,
            decreases self.by_name@.len() - i,
        {
            r.push((self.by_name[i].0.as_str(), self.by_name[i].1));
            i = i + 1;
        }
        proof {
            assert forall|j: int| 0 <= j < r@.len() implies self@.contains_key(#[trigger] r@[j].0@)
                && self@[r@[j].0@] == r@[j].1 by {
                lemma_pairs_map_at(self.pairs(), j);
            }
        }
        r
    }

    /// The names of the running clients.
    pub fn names(&self) -> (r: Vec<&str>)
        requires
            self.wf(),
        ensures
            r@.len() == self@.dom().len(),
            forall|i: int| 0 <= i < r@.len() ==> self@.contains_key(#[trigger] r@[i]@),
            forall|i: int, j: int| 0 <= i < j < r@.len() ==> r@[i]@ != r@[j]@,
    {
        let all = self.iter();
        let mut r: Vec<&str> = Vec::new();
        let mut i: usize = 0;
        while i < all.len()
            invariant
                i <= all@.len(),
                r@.len() == i,
                forall|j: int| 0 <= j < i ==> r@[j]@ == all@[j].0@,
            decreases all@.len() - i,
        {
            r.push(all[i].0);
            i = i + 1;
        }
        r
    }

    fn find_client(&self, id: LspClientId) -> (r: Option<usize>)
        ensures
            match r {
                Some(i) => i < self.pairs().len() && self.pairs()[i as int].1.id == id,
                None => forall|j: int| 0 <= j < self.pairs().len() ==> self.pairs()[j].1.id != id,
            },
    {
        let mut i: usize = 0;
        while i < self.by_name.len()
            invariant
                i <= self.by_name@.len(),
                forall|j: int| 0 <= j < i ==> self.pairs()[j].1.id != id,
            decreases self.by_name@.len() - i,
        {
            if self.by_name[i].1.id == id {
                return Some(i);
            }
            i = i + 1;
        }
        None
    }

    /// Drop the client `id` without sending `shutdown` (its task is already
    /// gone).
    pub fn forget(&mut self, id: LspClientId)
        requires
            old(self).wf(),
        ensures
            final(self).wf(),
            final(self)@ == without_client(old(self)@, id),
    {
        let ghost start = self@;
        loop
            invariant
                self.wf(),
                without_client(self@, id) == without_client(start, id),
                self@.dom().subset_of(start.dom()),
                forall|k: Seq<char>| #[trigger] self@.contains_key(k) ==> self@[k] == start[k],
            ensures
                self.wf(),
                self@ == without_client(start, id),
            decreases self.by_name@.len(),
        {
            match self.find_client(id) {
                Some(i) => {
                    let ghost before = self.pairs();
                    let ghost key = before[i as int].0;
                    proof {
                        lemma_pairs_map_at(before, i as int);
                    }
                    let _ = self.by_name.remove(i);
                    proof {
                        assert(self.pairs() =~= before.remove(i as int));
                        lemma_pairs_map_remove(before, i as int);
                        assert(without_client(pairs_map(before).remove(key), id) =~= without_client(
                            pairs_map(before),
                            id,
                        ));
                    }
                },
                None => {
                    proof {
                        assert forall|k: Seq<char>| #[trigger] self@.contains_key(k) implies self@[k].id
                            != id by {
                            lemma_pairs_map_dom(self.pairs(), k);
                            let j = choose|j: int| 0 <= j < self.pairs().len() && self.pairs()[j].0 == k;
                            lemma_pairs_map_at(self.pairs(), j);
                        }
                        assert(without_client(self@, id) =~= self@);
                    }
                    break;
                },
            }
        }
    }
}

/// Forgetting a client drops exactly the names it served and keeps every
/// other name with its client.
pub proof fn law_forget_drops_only_that_client(
    m: Map<Seq<char>, RunningClient>,
    id: LspClientId,
    name: Seq<char>,
)
    requires
        m.dom().finite(),
    ensures
        without_client(m, id).contains_key(name) <==> (m.contains_key(name) && m[name].id != id),
        without_client(m, id).contains_key(name) ==> without_client(m, id)[name] == m[name],
        !serves(without_client(m, id), id),
{
    if serves(without_client(m, id), id) {
        let k = choose|k: Seq<char>| without_client(m, id).contains_key(k) && without_client(m, id)[k].id == id;
        assert(m[k].id != id);
    }
}

} // verus!

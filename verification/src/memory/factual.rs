use vstd::prelude::*;

use crate::kv::{
    as_map, keys_unique, lemma_as_map_contains, lemma_as_map_index, lemma_as_map_push,
    lemma_as_map_remove, lemma_as_map_update,
};
use crate::text::str_eq;

verus! {

/// A plain key-value store of facts, one value per key.
pub struct FactualMemory {
    facts: Vec<(String, String)>,
}

impl View for FactualMemory {
    type V = Map<Seq<char>, Seq<char>>;

    /// The store as the map its entries denote.
    closed spec fn view(&self) -> Map<Seq<char>, Seq<char>> {
        as_map(self.pairs())
    }
}

impl FactualMemory {
    /// The entries as plain character sequences.
    closed spec fn pairs(&self) -> Seq<(Seq<char>, Seq<char>)> {
        self.facts@.map_values(|p: (String, String)| (p.0@, p.1@))
    }

    /// Well-formed: one entry per key.
    pub closed spec fn wf(&self) -> bool {
        keys_unique(self.pairs())
    }

    /// An empty store.
    pub fn new() -> (r: FactualMemory)
        ensures
            r.wf(),
            r@ == Map::<Seq<char>, Seq<char>>::empty(),
    {
        FactualMemory { facts: Vec::new() }
    }

    /// Stores `value` under `key`, replacing any value the key held.
    pub fn store(&mut self, key: String, value: String)
        requires
            old(self).wf(),
        ensures
            final(self).wf(),
            final(self)@ == old(self)@.insert(key@, value@),
    {
        let n: usize = self.facts.len();
        let mut i: usize = 0;
        while i < n
            invariant
                self.wf(),
                self.pairs() == old(self).pairs(),
                self@ == old(self)@,
                n == self.facts@.len(),
                0 <= i <= n,
                forall|k: int| 0 <= k < i ==> (#[trigger] self.pairs()[k]).0 != key@,
            decreases n - i,
        {
            if str_eq(self.facts[i].0.as_str(), key.as_str()) {
                proof {
                    lemma_as_map_update(self.pairs(), i as int, value@);
                }
                let ghost before = self.pairs();
                self.facts.set(i, (key, value));
                proof {
                    assert(self.pairs() =~= before.update(i as int, (before[i as int].0, value@)));
                }
                return ;
            }
            i = i + 1;
        }
        proof {
            lemma_as_map_push(self.pairs(), key@, value@);
        }
        let ghost before = self.pairs();
        self.facts.push((key, value));
        proof {
            assert(self.pairs() =~= before.push((key@, value@)));
        }
    }

    /// The value stored under `key`, when there is one.
    pub fn retrieve(&self, key: &str) -> (r: Option<&String>)
        requires
            self.wf(),
        ensures
            match r {
                Some(v) => self@.contains_key(key@) && v@ == self@[key@],
                None => !self@.contains_key(key@),
            },
    {
        let n: usize = self.facts.len();
        let mut i: usize = 0;
        while i < n
            invariant
                self.wf(),
                n == self.facts@.len(),
                0 <= i <= n,
                forall|k: int| 0 <= k < i ==> (#[trigger] self.pairs()[k]).0 != key@,
            decreases n - i,
        {
            if str_eq(self.facts[i].0.as_str(), key) {
                proof {
                    lemma_as_map_index(self.pairs(), i as int);
                }
                return Some(&self.facts[i].1);
            }
            i = i + 1;
        }
        proof {
            lemma_as_map_contains(self.pairs(), key@);
        }
        None
    }

    /// Takes the value stored under `key` out of the store.
    pub fn remove(&mut self, key: &str) -> (r: Option<String>)
        requires
            old(self).wf(),
        ensures
            final(self).wf(),
            final(self)@ == old(self)@.remove(key@),
            match r {
                Some(v) => old(self)@.contains_key(key@) && v@ == old(self)@[key@],
                None => !old(self)@.contains_key(key@),
            },
    {
        let n: usize = self.facts.len();
        let mut i: usize = 0;
        while i < n
            invariant
                self.wf(),
                self@ == old(self)@,
                self.pairs() == old(self).pairs(),
                n == self.facts@.len(),
                0 <= i <= n,
                forall|k: int| 0 <= k < i ==> (#[trigger] self.pairs()[k]).0 != key@,
            decreases n - i,
    {
            if str_eq(self.facts[i].0.as_str(), key) {
                proof {
                    lemma_as_map_index(self.pairs(), i as int);
                    lemma_as_map_remove(self.pairs(), i as int);
                }
                let ghost before = self.pairs();
                let p = self.facts.remove(i);
                proof {
                    assert(self.pairs() =~= before.remove(i as int));
                }
                return Some(p.1);
            }
            i = i + 1;
        }
        proof {
            lemma_as_map_contains(self.pairs(), key@);
            assert(old(self)@.remove(key@) =~= old(self)@);
        }
        None
    }

    /// Empties the store.
    pub fn clear(&mut self)
        ensures
            final(self).wf(),
            final(self)@ == Map::<Seq<char>, Seq<char>>::empty(),
    {
        self.facts = Vec::new();
    }
}

} // verus!

use vstd::prelude::*;

use crate::kv::{
    as_map, clone_pairs, keys_unique, lemma_as_map_contains, lemma_as_map_index,
    lemma_as_map_push, lemma_as_map_remove, lemma_as_map_update, lookup_pair, str_pairs,
    upsert_pair,
};
use crate::text::str_eq;

verus! {

/// What a concept is, mathematically: a name and two key-value maps.
pub ghost struct ConceptView {
    pub name: Seq<char>,
    pub attributes: Map<Seq<char>, Seq<char>>,
    pub relationships: Map<Seq<char>, Seq<char>>,
}

/// A named concept, with attributes and relationships to other
/// concepts.
pub struct Concept {
    pub name: String,
    pub attributes: Vec<(String, String)>,
    pub relationships: Vec<(String, String)>,
}

impl View for Concept {
    type V = ConceptView;

    open spec fn view(&self) -> ConceptView {
        ConceptView {
            name: self.name@,
            attributes: as_map(str_pairs(self.attributes@)),
            relationships: as_map(str_pairs(self.relationships@)),
        }
    }
}

impl Concept {
    /// Well-formed: one entry per attribute and per relationship key.
    pub open spec fn wf(&self) -> bool {
        keys_unique(str_pairs(self.attributes@)) && keys_unique(str_pairs(self.relationships@))
    }

    /// A deep copy.
    pub fn duplicate(&self) -> (r: Concept)
        ensures
            r@ == self@,
            r.wf() == self.wf(),
    {
        Concept {
            name: self.name.clone(),
            attributes: clone_pairs(&self.attributes),
            relationships: clone_pairs(&self.relationships),
        }
    }
}

/// `c` with `v` stored under attribute `a`.
pub open spec fn spec_with_attribute(c: ConceptView, a: Seq<char>, v: Seq<char>) -> ConceptView {
    ConceptView { attributes: c.attributes.insert(a, v), ..c }
}

/// `c` related to `other` by `how`.
pub open spec fn spec_with_relationship(
    c: ConceptView,
    other: Seq<char>,
    how: Seq<char>,
) -> ConceptView {
    ConceptView { relationships: c.relationships.insert(other, how), ..c }
}

/// A concept matches a query when it carries the queried attribute with
/// exactly the queried value.
pub open spec fn spec_matches_query(c: ConceptView, a: Seq<char>, v: Seq<char>) -> bool {
    c.attributes.contains_key(a) && c.attributes[a] == v
}

/// The concepts of `s` that match the query, in their stored order.
pub open spec fn spec_query(s: Seq<ConceptView>, a: Seq<char>, v: Seq<char>) -> Seq<ConceptView>
    decreases s.len(),
{
    if s.len() == 0 {
        Seq::empty()
    } else {
        spec_query(s.drop_last(), a, v) + (if spec_matches_query(s.last(), a, v) {
            seq![s.last()]
        } else {
            Seq::empty()
        })
    }
}

/// A store of concepts, one per name.
pub struct SemanticMemory {
    concepts: Vec<Concept>,
}

impl View for SemanticMemory {
    type V = Map<Seq<char>, ConceptView>;

    /// The store as a map from concept name to concept.
    closed spec fn view(&self) -> Map<Seq<char>, ConceptView> {
        as_map(self.centries())
    }
}

impl SemanticMemory {
    /// The concepts keyed by their names.
    closed spec fn centries(&self) -> Seq<(Seq<char>, ConceptView)> {
        self.concepts@.map_values(|c: Concept| (c.name@, c@))
    }

    /// The stored concepts in order, as their views.
    pub closed spec fn concept_views(&self) -> Seq<ConceptView> {
        self.concepts@.map_values(|c: Concept| c@)
    }

    /// Well-formed: one concept per name, each itself well-formed.
    pub closed spec fn wf(&self) -> bool {
        keys_unique(self.centries()) && forall|i: int|
            0 <= i < self.concepts@.len() ==> (#[trigger] self.concepts@[i]).wf()
    }

    /// An empty store.
    pub fn new() -> (r: SemanticMemory)
        ensures
            r.wf(),
            r@ == Map::<Seq<char>, ConceptView>::empty(),
    {
        SemanticMemory { concepts: Vec::new() }
    }

    /// Adds a concept, replacing any concept of the same name.
    pub fn add_concept(&mut self, concept: Concept)
        requires
            old(self).wf(),
            concept.wf(),
        ensures
            final(self).wf(),
            final(self)@ == old(self)@.insert(concept.name@, concept@),
    {
        let n: usize = self.concepts.len();
        let mut i: usize = 0;
        while i < n
            invariant
                self == old(self),
                self.wf(),
                concept.wf(),
                n == self.concepts@.len(),
                0 <= i <= n,
                forall|k: int| 0 <= k < i ==> (#[trigger] self.centries()[k]).0 != concept.name@,
            decreases n - i,
        {
            if str_eq(self.concepts[i].name.as_str(), concept.name.as_str()) {
                proof {
                    lemma_as_map_update(self.centries(), i as int, concept@);
                }
                let ghost before = self.centries();
                let ghost prevc = self.concepts@;
                let ghost cv = concept@;
                let ghost cfull = concept;
                self.concepts.set(i, concept);
                proof {
                    assert(self.centries() =~= before.update(i as int, (before[i as int].0, cv)));
                    assert forall|k: int| 0 <= k < self.concepts@.len() implies (
                    #[trigger] self.concepts@[k]).wf() by {
                        if k == i {
                            assert(self.concepts@[k] == cfull);
                            assert(cfull.wf());
                        } else {
                            assert(prevc[k].wf());
                            assert(self.concepts@[k] == prevc[k]);
                        }
                    }
                }
                return ;
            }
            i = i + 1;
        }
        proof {
            lemma_as_map_push(self.centries(), concept.name@, concept@);
        }
        let ghost before = self.centries();
        let ghost cv = concept@;
        let ghost cn = concept.name@;
        self.concepts.push(concept);
        proof {
            assert(self.centries() =~= before.push((cn, cv)));
            assert(forall|k: int|
                0 <= k < self.concepts@.len() ==> (#[trigger] self.concepts@[k]).wf());
        }
    }

    /// A copy of the concept of that name, when the store holds one.
    pub fn get_concept(&self, name: &str) -> (r: Option<Concept>)
        requires
            self.wf(),
        ensures
            match r {
                Some(c) => self@.contains_key(name@) && c@ == self@[name@] && c.wf(),
                None => !self@.contains_key(name@),
            },
    {
        let n: usize = self.concepts.len();
        let mut i: usize = 0;
        while i < n
            invariant
                self.wf(),
                n == self.concepts@.len(),
                0 <= i <= n,
                forall|k: int| 0 <= k < i ==> (#[trigger] self.centries()[k]).0 != name@,
            decreases n - i,
        {
            if str_eq(self.concepts[i].name.as_str(), name) {
                proof {
                    lemma_as_map_index(self.centries(), i as int);
                }
                return Some(self.concepts[i].duplicate());
            }
            i = i + 1;
        }
        proof {
            lemma_as_map_contains(self.centries(), name@);
        }
        None
    }

    /// Stores `value` under attribute `attribute` of the named concept;
    /// an unknown name changes nothing.
    pub fn add_attribute(&mut self, concept_name: &str, attribute: String, value: String)
        requires
            old(self).wf(),
        ensures
            final(self).wf(),
            old(self)@.contains_key(concept_name@) ==> final(self)@ == old(self)@.insert(
                concept_name@,
                spec_with_attribute(old(self)@[concept_name@], attribute@, value@),
            ),
            !old(self)@.contains_key(concept_name@) ==> final(self)@ == old(self)@,
    {
        let n: usize = self.concepts.len();
        let mut i: usize = 0;
        while i < n
            invariant
                self == old(self),
                self.wf(),
                n == self.concepts@.len(),
                0 <= i <= n,
                forall|k: int| 0 <= k < i ==> (#[trigger] self.centries()[k]).0 != concept_name@,
            decreases n - i,
        {
            if str_eq(self.concepts[i].name.as_str(), concept_name) {
                proof {
                    lemma_as_map_index(self.centries(), i as int);
                    lemma_as_map_remove(self.centries(), i as int);
                }
                let ghost before = self.centries();
                let mut c = self.concepts.remove(i);
                proof {
                    assert(self.centries() =~= before.remove(i as int));
                    assert(forall|k: int|
                        0 <= k < self.centries().len() ==> (#[trigger] self.centries()[k]).0
                            != concept_name@);
                }
                upsert_pair(&mut c.attributes, attribute, value);
                proof {
                    lemma_as_map_push(self.centries(), c.name@, c@);
                }
                let ghost mid = self.centries();
                let ghost cv = c@;
                let ghost cn = c.name@;
                self.concepts.push(c);
                proof {
                    assert(self.centries() =~= mid.push((cn, cv)));
                    assert(forall|k: int|
                        0 <= k < self.concepts@.len() ==> (#[trigger] self.concepts@[k]).wf());
                    assert(final(self)@ =~= old(self)@.insert(
                        concept_name@,
                        spec_with_attribute(old(self)@[concept_name@], attribute@, value@),
                    ));
                }
                return ;
            }
            i = i + 1;
        }
        proof {
            lemma_as_map_contains(self.centries(), concept_name@);
        }
    }

    /// Relates the named concept to `related_concept` by
    /// `relation_type`; an unknown name changes nothing.
    pub fn add_relationship(&mut self, concept_name: &str, related_concept: String, relation_type: String)
        requires
            old(self).wf(),
        ensures
            final(self).wf(),
            old(self)@.contains_key(concept_name@) ==> final(self)@ == old(self)@.insert(
                concept_name@,
                spec_with_relationship(old(self)@[concept_name@], related_concept@, relation_type@),
            ),
            !old(self)@.contains_key(concept_name@) ==> final(self)@ == old(self)@,
    {
        let n: usize = self.concepts.len();
        let mut i: usize = 0;
        while i < n
            invariant
                self == old(self),
                self.wf(),
                n == self.concepts@.len(),
                0 <= i <= n,
                forall|k: int| 0 <= k < i ==> (#[trigger] self.centries()[k]).0 != concept_name@,
            decreases n - i,
        {
            if str_eq(self.concepts[i].name.as_str(), concept_name) {
                proof {
                    lemma_as_map_index(self.centries(), i as int);
                    lemma_as_map_remove(self.centries(), i as int);
                }
                let ghost before = self.centries();
                let mut c = self.concepts.remove(i);
                proof {
                    assert(self.centries() =~= before.remove(i as int));
                    assert(forall|k: int|
                        0 <= k < self.centries().len() ==> (#[trigger] self.centries()[k]).0
                            != concept_name@);
                }
                upsert_pair(&mut c.relationships, related_concept, relation_type);
                proof {
                    lemma_as_map_push(self.centries(), c.name@, c@);
                }
                let ghost mid = self.centries();
                let ghost cv = c@;
                let ghost cn = c.name@;
                self.concepts.push(c);
                proof {
                    assert(self.centries() =~= mid.push((cn, cv)));
                    assert(forall|k: int|
                        0 <= k < self.concepts@.len() ==> (#[trigger] self.concepts@[k]).wf());
                    assert(final(self)@ =~= old(self)@.insert(
                        concept_name@,
                        spec_with_relationship(
                            old(self)@[concept_name@],
                            related_concept@,
                            relation_type@,
                        ),
                    ));
                }
                return ;
            }
            i = i + 1;
        }
        proof {
            lemma_as_map_contains(self.centries(), concept_name@);
        }
    }

    /// Copies of every concept that carries `attribute` with exactly
    /// `value`, in stored order.
    pub fn query_concepts(&self, attribute: &str, value: &str) -> (r: Vec<Concept>)
        requires
            self.wf(),
        ensures
            r@.map_values(|c: Concept| c@) == spec_query(self.concept_views(), attribute@, value@),
            forall|i: int| 0 <= i < r@.len() ==> (#[trigger] r@[i]).wf(),
    {
        let n: usize = self.concepts.len();
        let mut r: Vec<Concept> = Vec::new();
        let mut i: usize = 0;
        while i < n
            invariant
                self.wf(),
                n == self.concepts@.len(),
                0 <= i <= n,
                r@.map_values(|c: Concept| c@) == spec_query(
                    self.concepts@.subrange(0, i as int).map_values(|c: Concept| c@),
                    attribute@,
                    value@,
                ),
                forall|k: int| 0 <= k < r@.len() ==> (#[trigger] r@[k]).wf(),
            decreases n - i,
        {
            let hit: bool = match lookup_pair(&self.concepts[i].attributes, attribute) {
                Some(s) => str_eq(s.as_str(), value),
                None => false,
            };
            let ghost prev = r@.map_values(|c: Concept| c@);
            if hit {
                r.push(self.concepts[i].duplicate());
            }
            proof {
                let pre = self.concepts@.subrange(0, i as int).map_values(|c: Concept| c@);
                let cur = self.concepts@.subrange(0, i + 1).map_values(|c: Concept| c@);
                assert(cur.drop_last() =~= pre);
                assert(cur.last() == self.concepts@[i as int]@);
                if hit {
                    assert(r@.map_values(|c: Concept| c@) =~= prev.push(
                        self.concepts@[i as int]@,
                    ));
                    assert(r@.map_values(|c: Concept| c@) =~= spec_query(cur, attribute@, value@));
                } else {
                    assert(r@.map_values(|c: Concept| c@) =~= spec_query(cur, attribute@, value@));
                }
            }
            i = i + 1;
        }
        proof {
            assert(self.concepts@.subrange(0, n as int) =~= self.concepts@);
            assert(self.concepts@.subrange(0, n as int).map_values(|c: Concept| c@)
                =~= self.concept_views());
        }
        r
    }
}

} // verus!

use vstd::prelude::*;

use crate::kv::{keys_unique, str_pairs};
use crate::text::str_eq;

verus! {

/// Position of the entry carrying `k`; meaningful only under
/// `spec_has_key`.
pub open spec fn spec_key_index(s: Seq<(Seq<char>, Seq<char>)>, k: Seq<char>) -> int {
    choose|i: int| 0 <= i < s.len() && (#[trigger] s[i]).0 == k
}

/// Some entry carries `k`.
pub open spec fn spec_has_key(s: Seq<(Seq<char>, Seq<char>)>, k: Seq<char>) -> bool {
    exists|i: int| 0 <= i < s.len() && (#[trigger] s[i]).0 == k
}

/// `s` without the entry carrying `k`, when one does.
pub open spec fn spec_drop_key(
    s: Seq<(Seq<char>, Seq<char>)>,
    k: Seq<char>,
) -> Seq<(Seq<char>, Seq<char>)> {
    if spec_has_key(s, k) {
        s.remove(spec_key_index(s, k))
    } else {
        s
    }
}

/// What adding an entry does: with the buffer at or over its bound the
/// least recently used entry leaves first, then the key's old entry
/// leaves, then the new entry joins as the most recent.
pub open spec fn spec_added(
    s: Seq<(Seq<char>, Seq<char>)>,
    k: Seq<char>,
    v: Seq<char>,
    max: int,
) -> Seq<(Seq<char>, Seq<char>)> {
    let evicted = if s.len() >= max && s.len() > 0 {
        s.drop_first()
    } else {
        s
    };
    spec_drop_key(evicted, k).push((k, v))
}

/// A bounded short-term store: entries ordered from least to most
/// recently used, one per key.
pub struct WorkingMemory {
    buffer: Vec<(String, String)>,
    max_items: usize,
    timeout_seconds: u64,
}

impl View for WorkingMemory {
    type V = Seq<(Seq<char>, Seq<char>)>;

    /// The entries from least to most recently used.
    closed spec fn view(&self) -> Seq<(Seq<char>, Seq<char>)> {
        str_pairs(self.buffer@)
    }
}

impl WorkingMemory {
    /// Well-formed: one entry per key.
    pub closed spec fn wf(&self) -> bool {
        keys_unique(str_pairs(self.buffer@))
    }

    /// The bound the store was made with.
    pub closed spec fn spec_max_items(&self) -> usize {
        self.max_items
    }

    /// The idle timeout, in seconds, the store was made with.
    pub closed spec fn spec_timeout_seconds(&self) -> u64 {
        self.timeout_seconds
    }

    /// An empty store that will hold at most `max_items` entries.
    pub fn new(max_items: usize, timeout_seconds: u64) -> (r: WorkingMemory)
        ensures
            r.wf(),
            r@ == Seq::<(Seq<char>, Seq<char>)>::empty(),
            r.spec_max_items() == max_items,
            r.spec_timeout_seconds() == timeout_seconds,
    {
        WorkingMemory { buffer: Vec::new(), max_items, timeout_seconds }
    }

    /// Takes the entry carrying `key` out of the buffer, leaving order
    /// and the other entries untouched.
    fn drop_key(&mut self, key: &str)
        requires
            old(self).wf(),
        ensures
            final(self).wf(),
            final(self)@ == spec_drop_key(old(self)@, key@),
            final(self).spec_max_items() == old(self).spec_max_items(),
            final(self).spec_timeout_seconds() == old(self).spec_timeout_seconds(),
    {
        let n: usize = self.buffer.len();
        let mut i: usize = 0;
        while i < n
            invariant
                self == old(self),
                self.wf(),
                n == self.buffer@.len(),
                0 <= i <= n,
                forall|k: int| 0 <= k < i ==> (#[trigger] str_pairs(self.buffer@)[k]).0 != key@,
            decreases n - i,
        {
            if str_eq(self.buffer[i].0.as_str(), key) {
                proof {
                    let s = str_pairs(self.buffer@);
                    assert(s[i as int].0 == key@);
                    assert(spec_has_key(s, key@));
                    let j = spec_key_index(s, key@);
                    assert(0 <= j < s.len() && s[j].0 == key@);
                    if j != i {
                        assert(s[i as int].0 == s[j].0);
                        assert(false);
                    }
                    crate::kv::lemma_as_map_remove(s, i as int);
                }
                let ghost before = str_pairs(self.buffer@);
                self.buffer.remove(i);
                proof {
                    assert(str_pairs(self.buffer@) =~= before.remove(i as int));
                }
                return ;
            }
            i = i + 1;
        }
        proof {
            assert(!spec_has_key(str_pairs(self.buffer@), key@));
        }
    }

    /// Stores `data` under `key` as the most recent entry; with the
    /// buffer full, the least recently used entry leaves first.
    pub fn add(&mut self, key: String, data: String)
        requires
            old(self).wf(),
        ensures
            final(self).wf(),
            final(self)@ == spec_added(
                old(self)@,
                key@,
                data@,
                old(self).spec_max_items() as int,
            ),
            final(self).spec_max_items() == old(self).spec_max_items(),
            final(self).spec_timeout_seconds() == old(self).spec_timeout_seconds(),
    {
        if self.buffer.len() >= self.max_items && self.buffer.len() > 0 {
            proof {
                crate::kv::lemma_as_map_remove(str_pairs(self.buffer@), 0);
            }
            let ghost before = str_pairs(self.buffer@);
            self.buffer.remove(0);
            proof {
                assert(str_pairs(self.buffer@) =~= before.remove(0));
                assert(before.remove(0) =~= before.drop_first());
            }
        }
        self.drop_key(key.as_str());
        let ghost mid = str_pairs(self.buffer@);
        proof {
            assert forall|k: int| 0 <= k < mid.len() implies (#[trigger] mid[k]).0 != key@ by {
                if spec_has_key(mid, key@) {
                    let j = spec_key_index(mid, key@);
                    assert(0 <= j < mid.len() && mid[j].0 == key@);
                    let stage = if old(self)@.len() >= old(self).spec_max_items() && old(
                        self,
                    )@.len() > 0 {
                        old(self)@.drop_first()
                    } else {
                        old(self)@
                    };
                    assert(mid == spec_drop_key(stage, key@));
                    if spec_has_key(stage, key@) {
                        let t = spec_key_index(stage, key@);
                        assert(forall|a: int|
                            0 <= a < mid.len() ==> (#[trigger] mid[a]) == (if a < t {
                                stage[a]
                            } else {
                                stage[a + 1]
                            }));
                        if j < t {
                            assert(stage[j].0 == stage[t].0);
                            assert(false);
                        } else {
                            assert(stage[j + 1].0 == stage[t].0);
                            assert(false);
                        }
                    } else {
                        assert(false);
                    }
                }
            }
            crate::kv::lemma_as_map_push(mid, key@, data@);
        }
        self.buffer.push((key, data));
        proof {
            assert(str_pairs(self.buffer@) =~= mid.push((key@, data@)));
        }
    }

    /// The data stored under `key`; a hit makes the entry the most
    /// recent one.
    pub fn get(&mut self, key: &str) -> (r: Option<String>)
        requires
            old(self).wf(),
        ensures
            final(self).wf(),
            final(self).spec_max_items() == old(self).spec_max_items(),
            final(self).spec_timeout_seconds() == old(self).spec_timeout_seconds(),
            match r {
                Some(v) => spec_has_key(old(self)@, key@) && v@ == old(self)@[spec_key_index(
                    old(self)@,
                    key@,
                )].1 && final(self)@ == old(self)@.remove(spec_key_index(old(self)@, key@)).push(
                    old(self)@[spec_key_index(old(self)@, key@)],
                ),
                None => !spec_has_key(old(self)@, key@) && final(self)@ == old(self)@,
            },
    {
        let n: usize = self.buffer.len();
        let mut i: usize = 0;
        while i < n
            invariant
                self == old(self),
                self.wf(),
                n == self.buffer@.len(),
                0 <= i <= n,
                forall|k: int| 0 <= k < i ==> (#[trigger] str_pairs(self.buffer@)[k]).0 != key@,
            decreases n - i,
        {
            if str_eq(self.buffer[i].0.as_str(), key) {
                proof {
                    let s = str_pairs(self.buffer@);
                    assert(s[i as int].0 == key@);
                    assert(spec_has_key(s, key@));
                    let j = spec_key_index(s, key@);
                    assert(0 <= j < s.len() && s[j].0 == key@);
                    if j != i {
                        assert(s[i as int].0 == s[j].0);
                        assert(false);
                    }
                    crate::kv::lemma_as_map_remove(s, i as int);
                }
                let ghost before = str_pairs(self.buffer@);
                let e = self.buffer.remove(i);
                let v = e.1.clone();
                proof {
                    assert(str_pairs(self.buffer@) =~= before.remove(i as int));
                    assert forall|k: int|
                        0 <= k < str_pairs(self.buffer@).len() implies (#[trigger] str_pairs(
                        self.buffer@,
                    )[k]).0 != key@ by {
                        let s2 = str_pairs(self.buffer@);
                        assert(forall|a: int|
                            0 <= a < s2.len() ==> (#[trigger] s2[a]) == (if a < i {
                                before[a]
                            } else {
                                before[a + 1]
                            }));
                        if k < i {
                            assert(before[k].0 != before[i as int].0);
                        } else {
                            assert(before[k + 1].0 != before[i as int].0);
                        }
                    }
                    crate::kv::lemma_as_map_push(str_pairs(self.buffer@), e.0@, e.1@);
                }
                let ghost mid = str_pairs(self.buffer@);
                self.buffer.push(e);
                proof {
                    assert(str_pairs(self.buffer@) =~= mid.push((before[i as int].0, before[
                    i as int].1)));
                }
                return Some(v);
            }
            i = i + 1;
        }
        proof {
            assert(!spec_has_key(str_pairs(self.buffer@), key@));
        }
        None
    }

    /// Takes the entry carrying `key` out of the store.
    pub fn remove(&mut self, key: &str)
        requires
            old(self).wf(),
        ensures
            final(self).wf(),
            final(self)@ == spec_drop_key(old(self)@, key@),
            final(self).spec_max_items() == old(self).spec_max_items(),
            final(self).spec_timeout_seconds() == old(self).spec_timeout_seconds(),
    {
        self.drop_key(key);
    }

    /// Empties the store.
    pub fn clear(&mut self)
        ensures
            final(self).wf(),
            final(self)@ == Seq::<(Seq<char>, Seq<char>)>::empty(),
            final(self).spec_max_items() == old(self).spec_max_items(),
            final(self).spec_timeout_seconds() == old(self).spec_timeout_seconds(),
    {
        self.buffer = Vec::new();
    }
}

} // verus!

use vstd::prelude::*;

use crate::text::str_eq;

verus! {

/// String pairs as plain character sequences.
pub open spec fn str_pairs(s: Seq<(String, String)>) -> Seq<(Seq<char>, Seq<char>)> {
    s.map_values(|p: (String, String)| (p.0@, p.1@))
}

/// No two entries share a key.
pub open spec fn keys_unique<V>(s: Seq<(Seq<char>, V)>) -> bool {
    forall|i: int, j: int| 0 <= i < j < s.len() ==> (#[trigger] s[i]).0 != (#[trigger] s[j]).0
}

/// The map an association list denotes: later entries win.
pub open spec fn as_map<V>(s: Seq<(Seq<char>, V)>) -> Map<Seq<char>, V>
    decreases s.len(),
{
    if s.len() == 0 {
        Map::empty()
    } else {
        as_map(s.drop_last()).insert(s.last().0, s.last().1)
    }
}

/// A key is in the map exactly when some entry carries it.
pub proof fn lemma_as_map_contains<V>(s: Seq<(Seq<char>, V)>, k: Seq<char>)
    ensures
        as_map(s).contains_key(k) <==> exists|i: int| 0 <= i < s.len() && (#[trigger] s[i]).0 == k,
    decreases s.len(),
{
    if s.len() > 0 {
        lemma_as_map_contains(s.drop_last(), k);
        if s.last().0 == k {
            assert((#[trigger] s[s.len() - 1]).0 == k);
        } else {
            if exists|i: int| 0 <= i < s.len() && (#[trigger] s[i]).0 == k {
                let i = choose|i: int| 0 <= i < s.len() && (#[trigger] s[i]).0 == k;
                if i < s.len() - 1 {
                    assert(s.drop_last()[i].0 == k);
                }
            }
        }
    }
}

/// With unique keys, the map sends each entry's key to its value.
pub proof fn lemma_as_map_index<V>(s: Seq<(Seq<char>, V)>, i: int)
    requires
        keys_unique(s),
        0 <= i < s.len(),
    ensures
        as_map(s).contains_key(s[i].0),
        as_map(s)[s[i].0] == s[i].1,
    decreases s.len(),
{
    if i == s.len() - 1 {
    } else {
        assert(keys_unique(s.drop_last())) by {
            assert(forall|a: int, b: int|
                0 <= a < b < s.drop_last().len() ==> (#[trigger] s.drop_last()[a]) == s[a]
                    && (#[trigger] s.drop_last()[b]) == s[b]);
        }
        lemma_as_map_index(s.drop_last(), i);
        assert(s[i].0 != s.last().0);
    }
}

/// Writing value `v` over the entry at `i` inserts it at that entry's
/// key.
pub proof fn lemma_as_map_update<V>(s: Seq<(Seq<char>, V)>, i: int, v: V)
    requires
        keys_unique(s),
        0 <= i < s.len(),
    ensures
        keys_unique(s.update(i, (s[i].0, v))),
        as_map(s.update(i, (s[i].0, v))) == as_map(s).insert(s[i].0, v),
    decreases s.len(),
{
    let t = s.update(i, (s[i].0, v));
    assert(keys_unique(t)) by {
        assert(forall|a: int| 0 <= a < s.len() ==> (#[trigger] t[a]).0 == s[a].0);
    }
    if i == s.len() - 1 {
        assert(t.drop_last() =~= s.drop_last());
        assert(as_map(t) =~= as_map(s).insert(s[i].0, v));
    } else {
        assert(keys_unique(s.drop_last())) by {
            assert(forall|a: int, b: int|
                0 <= a < b < s.drop_last().len() ==> (#[trigger] s.drop_last()[a]) == s[a]
                    && (#[trigger] s.drop_last()[b]) == s[b]);
        }
        lemma_as_map_update(s.drop_last(), i, v);
        assert(t.drop_last() =~= s.drop_last().update(i, (s[i].0, v)));
        assert(t.last() == s.last());
        assert(s[i].0 != s.last().0);
        assert(as_map(t) =~= as_map(s).insert(s[i].0, v));
    }
}

/// Removing the entry at `i` removes exactly its key from the map.
pub proof fn lemma_as_map_remove<V>(s: Seq<(Seq<char>, V)>, i: int)
    requires
        keys_unique(s),
        0 <= i < s.len(),
    ensures
        keys_unique(s.remove(i)),
        as_map(s.remove(i)) == as_map(s).remove(s[i].0),
    decreases s.len(),
{
    let t = s.remove(i);
    assert(keys_unique(t)) by {
        assert(forall|a: int|
            0 <= a < t.len() ==> (#[trigger] t[a]) == (if a < i {
                s[a]
            } else {
                s[a + 1]
            }));
    }
    if i == s.len() - 1 {
        assert(t =~= s.drop_last());
        lemma_as_map_contains(s.drop_last(), s[i].0);
        assert(forall|a: int|
            0 <= a < s.drop_last().len() ==> (#[trigger] s.drop_last()[a]) == s[a]);
        assert(!as_map(s.drop_last()).contains_key(s[i].0));
        assert(as_map(t) =~= as_map(s).remove(s[i].0));
    } else {
        assert(keys_unique(s.drop_last())) by {
            assert(forall|a: int, b: int|
                0 <= a < b < s.drop_last().len() ==> (#[trigger] s.drop_last()[a]) == s[a]
                    && (#[trigger] s.drop_last()[b]) == s[b]);
        }
        lemma_as_map_remove(s.drop_last(), i);
        assert(t.drop_last() =~= s.drop_last().remove(i));
        assert(t.last() == s.last());
        assert(s[i].0 != s.last().0);
        assert(as_map(t) =~= as_map(s).remove(s[i].0));
    }
}

/// Appending an entry inserts its key.
pub proof fn lemma_as_map_push<V>(s: Seq<(Seq<char>, V)>, k: Seq<char>, v: V)
    requires
        keys_unique(s),
        forall|i: int| 0 <= i < s.len() ==> (#[trigger] s[i]).0 != k,
    ensures
        keys_unique(s.push((k, v))),
        as_map(s.push((k, v))) == as_map(s).insert(k, v),
{
    let t = s.push((k, v));
    assert(keys_unique(t)) by {
        assert(forall|a: int| 0 <= a < s.len() ==> (#[trigger] t[a]) == s[a]);
        assert(t[t.len() - 1].0 == k);
    }
    assert(t.drop_last() =~= s);
}

/// Stores `value` under `key` in an association vector, replacing any
/// value the key held.
pub fn upsert_pair(v: &mut Vec<(String, String)>, key: String, value: String)
    requires
        keys_unique(str_pairs(old(v)@)),
    ensures
        keys_unique(str_pairs(final(v)@)),
        as_map(str_pairs(final(v)@)) == as_map(str_pairs(old(v)@)).insert(key@, value@),
{
    let n: usize = v.len();
    let mut i: usize = 0;
    while i < n
        invariant
            v@ == old(v)@,
            keys_unique(str_pairs(v@)),
            n == v@.len(),
            0 <= i <= n,
            forall|k: int| 0 <= k < i ==> (#[trigger] str_pairs(v@)[k]).0 != key@,
        decreases n - i,
    {
        if str_eq(v[i].0.as_str(), key.as_str()) {
            proof {
                lemma_as_map_update(str_pairs(v@), i as int, value@);
            }
            let ghost before = str_pairs(v@);
            v.set(i, (key, value));
            proof {
                assert(str_pairs(v@) =~= before.update(i as int, (before[i as int].0, value@)));
            }
            return ;
        }
        i = i + 1;
    }
    proof {
        lemma_as_map_push(str_pairs(v@), key@, value@);
    }
    let ghost before = str_pairs(v@);
    v.push((key, value));
    proof {
        assert(str_pairs(v@) =~= before.push((key@, value@)));
    }
}

/// The value stored under `key` in an association vector, when there is
/// one.
pub fn lookup_pair<'a>(v: &'a Vec<(String, String)>, key: &str) -> (r: Option<&'a String>)
    requires
        keys_unique(str_pairs(v@)),
    ensures
        match r {
            Some(s) => as_map(str_pairs(v@)).contains_key(key@) && s@ == as_map(str_pairs(v@))[key@],
            None => !as_map(str_pairs(v@)).contains_key(key@),
        },
{
    let n: usize = v.len();
    let mut i: usize = 0;
    while i < n
        invariant
            keys_unique(str_pairs(v@)),
            n == v@.len(),
            0 <= i <= n,
            forall|k: int| 0 <= k < i ==> (#[trigger] str_pairs(v@)[k]).0 != key@,
        decreases n - i,
    {
        if str_eq(v[i].0.as_str(), key) {
            proof {
                lemma_as_map_index(str_pairs(v@), i as int);
            }
            return Some(&v[i].1);
        }
        i = i + 1;
    }
    proof {
        lemma_as_map_contains(str_pairs(v@), key@);
    }
    None
}

/// A deep copy of an association vector, pair for pair.
pub fn clone_pairs(v: &Vec<(String, String)>) -> (r: Vec<(String, String)>)
    ensures
        r@ == v@,
{
    let n: usize = v.len();
    let mut r: Vec<(String, String)> = Vec::new();
    let mut i: usize = 0;
    while i < n
        invariant
            n == v@.len(),
            0 <= i <= n,
            r@ == v@.subrange(0, i as int),
        decreases n - i,
    {
        r.push((v[i].0.clone(), v[i].1.clone()));
        proof {
            assert(r@ =~= v@.subrange(0, i + 1));
        }
        i = i + 1;
    }
    proof {
        assert(v@.subrange(0, n as int) =~= v@);
    }
    r
}

} // verus!

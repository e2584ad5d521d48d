//! A string-keyed map with mathematical `Map` semantics, used for query
//! parameters and bound path parameters.
//!
//! The map is backed by a vector of key/value pairs whose keys stay
//! pairwise distinct; inserting an existing key replaces its value
//! (last write wins).

use vstd::prelude::*;

verus! {

/// The map denoted by a list of entries: later entries win.
pub open spec fn map_of_entries(s: Seq<(String, String)>) -> Map<Seq<char>, Seq<char>>
    decreases s.len(),
{
    if s.len() == 0 {
        Map::empty()
    } else {
        map_of_entries(s.drop_last()).insert(s.last().0@, s.last().1@)
    }
}

/// No two entries share a key.
pub open spec fn entry_keys_unique(s: Seq<(String, String)>) -> bool {
    forall|i: int, j: int| 0 <= i < j < s.len() ==> s[i].0@ != s[j].0@
}

proof fn lemma_map_of_entries_contains(s: Seq<(String, String)>, k: Seq<char>)
    ensures
        map_of_entries(s).contains_key(k) <==> exists|i: int|
            0 <= i < s.len() && s[i].0@ == k,
    decreases s.len(),
{
    if s.len() > 0 {
        lemma_map_of_entries_contains(s.drop_last(), k);
        if s.last().0@ == k {
            assert(s[s.len() - 1].0@ == k);
        } else if map_of_entries(s).contains_key(k) {
            let i = choose|i: int| 0 <= i < s.drop_last().len() && s.drop_last()[i].0@ == k;
            assert(s[i].0@ == k);
        } else if exists|i: int| 0 <= i < s.len() && s[i].0@ == k {
            let i = choose|i: int| 0 <= i < s.len() && s[i].0@ == k;
            assert(s.drop_last()[i].0@ == k);
        }
    }
}

proof fn lemma_map_of_entries_finite(s: Seq<(String, String)>)
    ensures
        map_of_entries(s).dom().finite(),
    decreases s.len(),
{
    if s.len() > 0 {
        lemma_map_of_entries_finite(s.drop_last());
    }
}

proof fn lemma_map_of_entries_index(s: Seq<(String, String)>, i: int)
    requires
        0 <= i < s.len(),
        forall|j: int| i < j < s.len() ==> s[j].0@ != s[i].0@,
    ensures
        map_of_entries(s).contains_key(s[i].0@),
        map_of_entries(s)[s[i].0@] == s[i].1@,
    decreases s.len(),
{
    if i == s.len() - 1 {
        assert(s.last() == s[i]);
    } else {
        lemma_map_of_entries_index(s.drop_last(), i);
        assert(s.drop_last()[i] == s[i]);
        assert(s.last().0@ != s[i].0@);
    }
}

proof fn lemma_map_of_entries_len(s: Seq<(String, String)>)
    requires
        entry_keys_unique(s),
    ensures
        map_of_entries(s).dom().finite(),
        map_of_entries(s).dom().len() == s.len(),
    decreases s.len(),
{
    lemma_map_of_entries_finite(s);
    if s.len() > 0 {
        let s0 = s.drop_last();
        assert(entry_keys_unique(s0)) by {
            assert(forall|i: int, j: int|
                0 <= i < j < s0.len() ==> s0[i] == s[i] && s0[j] == s[j]);
        }
        lemma_map_of_entries_len(s0);
        assert(!map_of_entries(s0).contains_key(s.last().0@)) by {
            lemma_map_of_entries_contains(s0, s.last().0@);
            assert(forall|i: int| 0 <= i < s0.len() ==> s[i] == s0[i]);
        }
        vstd::set::axiom_set_insert_len(map_of_entries(s0).dom(), s.last().0@);
        assert(map_of_entries(s).dom() =~= map_of_entries(s0).dom().insert(s.last().0@));
    } else {
        assert(map_of_entries(s).dom() =~= Set::<Seq<char>>::empty());
    }
}

proof fn lemma_map_of_entries_remove(s: Seq<(String, String)>, i: int)
    requires
        entry_keys_unique(s),
        0 <= i < s.len(),
    ensures
        map_of_entries(s.remove(i)) =~= map_of_entries(s).remove(s[i].0@),
    decreases s.len(),
{
    let k = s[i].0@;
    if i == s.len() - 1 {
        assert(s.remove(i) =~= s.drop_last());
        assert(!map_of_entries(s.drop_last()).contains_key(k)) by {
            lemma_map_of_entries_contains(s.drop_last(), k);
            assert(forall|j: int| 0 <= j < s.len() - 1 ==> s.drop_last()[j] == s[j]);
        }
        assert(map_of_entries(s.drop_last())
            =~= map_of_entries(s.drop_last()).insert(s.last().0@, s.last().1@).remove(k));
    } else {
        let s0 = s.drop_last();
        assert(entry_keys_unique(s0)) by {
            assert(forall|a: int, b: int|
                0 <= a < b < s0.len() ==> s0[a] == s[a] && s0[b] == s[b]);
        }
        assert(s0[i] == s[i]);
        lemma_map_of_entries_remove(s0, i);
        assert(s.remove(i) =~= s0.remove(i).push(s.last()));
        assert(map_of_entries(s.remove(i))
            == map_of_entries(s.remove(i).drop_last()).insert(
            s.remove(i).last().0@,
            s.remove(i).last().1@,
        ));
        assert(s.remove(i).drop_last() =~= s0.remove(i));
        assert(s.remove(i).last() == s.last());
        assert(s.last().0@ != k);
        assert(map_of_entries(s0).remove(k).insert(s.last().0@, s.last().1@)
            =~= map_of_entries(s0).insert(s.last().0@, s.last().1@).remove(k));
    }
}

/// The index of the first entry bound to `key`, if any.
fn find_entry(v: &Vec<(String, String)>, key: &str) -> (r: Option<usize>)
    ensures
        match r {
            Some(i) => i < v@.len() && v@[i as int].0@ == key@ && forall|j: int|
                0 <= j < i ==> v@[j].0@ != key@,
            None => forall|j: int| 0 <= j < v@.len() ==> v@[j].0@ != key@,
        },
{
    let n = v.len();
    let mut i: usize = 0;
    while i < n
        invariant
            i <= n,
            n == v@.len(),
            forall|j: int| 0 <= j < i ==> v@[j].0@ != key@,
        decreases n - i,
    {
        if crate::text::str_eq(v[i].0.as_str(), key) {
            return Some(i);
        }
        i = i + 1;
    }
    None
}

/// A map from strings to strings; inserting an existing key replaces
/// its value.
#[derive(Debug)]
pub struct StringMap {
    entries: Vec<(String, String)>,
}

impl StringMap {
    #[verifier::type_invariant]
    closed spec fn inv(&self) -> bool {
        entry_keys_unique(self.entries@)
    }

    pub closed spec fn view(&self) -> Map<Seq<char>, Seq<char>> {
        map_of_entries(self.entries@)
    }

    /// The empty map.
    pub fn new() -> (r: StringMap)
        ensures
            r@ == Map::<Seq<char>, Seq<char>>::empty(),
    {
        StringMap { entries: Vec::new() }
    }

    /// The number of keys in the map.
    pub fn len(&self) -> (r: usize)
        ensures
            r == self@.dom().len(),
    {
        proof {
            use_type_invariant(self);
            lemma_map_of_entries_len(self.entries@);
        }
        self.entries.len()
    }

    /// Looks a key up; `None` exactly when the key is absent.
    pub fn get(&self, key: &str) -> (r: Option<&String>)
        ensures
            match r {
                Some(v) => self@.contains_key(key@) && v@ == self@[key@],
                None => !self@.contains_key(key@),
            },
    {
        proof {
            use_type_invariant(self);
        }
        let n = self.entries.len();
        let mut i: usize = 0;
        while i < n
            invariant
                i <= n,
                n == self.entries@.len(),
                entry_keys_unique(self.entries@),
                forall|j: int| 0 <= j < i ==> self.entries@[j].0@ != key@,
            decreases n - i,
        {
            if crate::text::str_eq(self.entries[i].0.as_str(), key) {
                proof {
                    lemma_map_of_entries_index(self.entries@, i as int);
                }
                return Some(&self.entries[i].1);
            }
            i = i + 1;
        }
        proof {
            lemma_map_of_entries_contains(self.entries@, key@);
        }
        None
    }

    /// Binds `key` to `value`, replacing any earlier binding of `key`.
    pub fn insert(&mut self, key: String, value: String)
        ensures
            final(self)@ == old(self)@.insert(key@, value@),
    {
        proof {
            use_type_invariant(&*self);
        }
        let mut v: Vec<(String, String)> = Vec::new();
        core::mem::swap(&mut self.entries, &mut v);
        let ghost s_old = v@;
        if let Some(i) = find_entry(&v, key.as_str()) {
            proof {
                assert(forall|j: int| i < j < s_old.len() ==> s_old[j].0@ != s_old[i as int].0@);
            }
            let _ = v.remove(i);
            proof {
                lemma_map_of_entries_remove(s_old, i as int);
                assert(forall|a: int| 0 <= a < v@.len() ==> #[trigger] v@[a] == (if a < i {
                    s_old[a]
                } else {
                    s_old[a + 1]
                }));
                assert(forall|a: int, b: int|
                    0 <= a < b < v@.len() ==> v@[a].0@ != v@[b].0@);
                assert(forall|a: int| 0 <= a < v@.len() ==> v@[a].0@ != key@);
            }
            let ghost s_removed = v@;
            v.push((key, value));
            proof {
                assert(v@.drop_last() =~= s_removed);
                assert(map_of_entries(v@) =~= map_of_entries(s_old).insert(key@, value@));
                assert(entry_keys_unique(v@)) by {
                    assert(forall|a: int| 0 <= a < v@.len() - 1
                        ==> #[trigger] v@[a] == s_removed[a]);
                }
            }
        } else {
            v.push((key, value));
            proof {
                assert(v@.drop_last() =~= s_old);
                assert(entry_keys_unique(v@)) by {
                    assert(forall|a: int| 0 <= a < v@.len() - 1
                        ==> #[trigger] v@[a] == s_old[a]);
                }
            }
        }
        self.entries = v;
    }
}

} // verus!

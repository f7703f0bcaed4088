//! A string-keyed store of material resource identifiers.
//!
//! The store is an association list whose later entries shadow earlier
//! ones, so its abstract value is a finite map from key characters to
//! material identifiers.  It backs both the process-wide material
//! cache and the named-material table of a loaded asset file.

use vstd::prelude::*;

verus! {

/// A store of material identifiers addressed by string keys.
///
/// Abstractly a `Map<Seq<char>, u64>`: inserting binds a key, and a
/// later insert of the same key shadows the earlier binding.
#[derive(Debug, Clone)]
pub struct KeyStore {
    entries: Vec<(String, u64)>,
}

/// The map denoted by an association list; the last entry for a key wins.
pub open spec fn entries_map(s: Seq<(String, u64)>) -> Map<Seq<char>, u64>
    decreases s.len(),
{
    if s.len() == 0 {
        Map::empty()
    } else {
        entries_map(s.drop_last()).insert(s.last().0@, s.last().1)
    }
}

impl View for KeyStore {
    type V = Map<Seq<char>, u64>;

    closed spec fn view(&self) -> Map<Seq<char>, u64> {
        entries_map(self.entries@)
    }
}

/// Entries at positions `i..` never mention `k`, so the denoted map
/// agrees at `k` with the map denoted by the prefix of length `i`.
proof fn lemma_entries_map_agree_prefix(s: Seq<(String, u64)>, k: Seq<char>, i: int)
    requires
        0 <= i <= s.len(),
        forall|j: int| i <= j < s.len() ==> s[j].0@ != k,
    ensures
        entries_map(s).contains_key(k) == entries_map(s.take(i)).contains_key(k),
        entries_map(s).contains_key(k) ==> entries_map(s)[k] == entries_map(s.take(i))[k],
    decreases s.len() - i,
{
    if i == s.len() {
        assert(s.take(i) =~= s);
    } else {
        let s1 = s.drop_last();
        assert(s.last().0@ != k);
        assert(forall|j: int| i <= j < s1.len() ==> s1[j].0@ != k);
        lemma_entries_map_agree_prefix(s1, k, i);
        assert(s.take(i) =~= s1.take(i));
    }
}

impl KeyStore {
    /// An empty store: no key is bound.
    pub fn new() -> (r: KeyStore)
        ensures
            r@ == Map::<Seq<char>, u64>::empty(),
    {
        KeyStore { entries: Vec::new() }
    }

    /// Whether `key` is bound in the store.
    pub fn contains(&self, key: &String) -> (r: bool)
        ensures
            r == self@.contains_key(key@),
    {
        let n: usize = self.entries.len();
        let mut i: usize = n;
        while i > 0
            invariant
                i <= n,
                n == self.entries.len(),
                forall|j: int| i <= j < n ==> self.entries@[j].0@ != key@,
            decreases i,
        {
            i = i - 1;
            if self.entries[i].0 == *key {
                proof {
                    lemma_entries_map_agree_prefix(self.entries@, key@, i + 1);
                    let p = self.entries@.take(i + 1);
                    assert(p.last() == self.entries@[i as int]);
                    assert(entries_map(p).contains_key(key@));
                }
                return true;
            }
        }
        proof {
            lemma_entries_map_agree_prefix(self.entries@, key@, 0);
            assert(self.entries@.take(0) =~= Seq::<(String, u64)>::empty());
        }
        false
    }

    /// The identifier bound to `key`; the key must be bound.
    pub fn get(&self, key: &String) -> (r: u64)
        requires
            self@.contains_key(key@),
        ensures
            r == self@[key@],
    {
        let n: usize = self.entries.len();
        let mut i: usize = n;
        while i > 0
            invariant
                i <= n,
                n == self.entries.len(),
                self@.contains_key(key@),
                forall|j: int| i <= j < n ==> self.entries@[j].0@ != key@,
            decreases i,
        {
            i = i - 1;
            if self.entries[i].0 == *key {
                proof {
                    lemma_entries_map_agree_prefix(self.entries@, key@, i + 1);
                    let p = self.entries@.take(i + 1);
                    assert(p.last() == self.entries@[i as int]);
                    assert(p.drop_last() =~= self.entries@.take(i as int));
                    assert(entries_map(p)[key@] == self.entries@[i as int].1);
                }
                return self.entries[i].1;
            }
        }
        proof {
            lemma_entries_map_agree_prefix(self.entries@, key@, 0);
            assert(self.entries@.take(0) =~= Seq::<(String, u64)>::empty());
        }
        unreached()
    }

    /// Bind `key` to `value`, shadowing any earlier binding.
    pub fn insert(&mut self, key: String, value: u64)
        ensures
            final(self)@ == old(self)@.insert(key@, value),
    {
        let ghost k: Seq<char> = key@;
        self.entries.push((key, value));
        proof {
            assert(self.entries@.drop_last() =~= old(self).entries@);
            assert(self.entries@.last().0@ == k);
        }
    }
}

} // verus!

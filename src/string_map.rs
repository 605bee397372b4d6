//! An insertion-ordered map from strings to strings, with last-write-wins
//! updates.

use vstd::prelude::*;

verus! {

/// Abstract contents of a [`StringMap`]: its entries in insertion order.
pub type Entries = Seq<(Seq<char>, Seq<char>)>;

/// No key occurs twice among the entries.
pub open spec fn keys_unique(e: Entries) -> bool {
    forall|i: int, j: int| 0 <= i < j < e.len() ==> e[i].0 != e[j].0
}

/// Some entry has key `k`.
pub open spec fn has_key(e: Entries, k: Seq<char>) -> bool {
    exists|i: int| 0 <= i < e.len() && e[i].0 == k
}

/// Writes `v` under `k`: an existing entry keeps its place and takes the new
/// value, a new key goes to the end.
pub open spec fn insert_entry(e: Entries, k: Seq<char>, v: Seq<char>) -> Entries {
    if has_key(e, k) {
        let i = choose|i: int| 0 <= i < e.len() && e[i].0 == k;
        e.update(i, (k, v))
    } else {
        e.push((k, v))
    }
}

/// Writes each pair of `kvs` in turn, so that a later pair wins over an
/// earlier one with the same key.
pub open spec fn insert_all(e: Entries, kvs: Entries) -> Entries
    decreases kvs.len(),
{
    if kvs.len() == 0 {
        e
    } else {
        let last = kvs.last();
        insert_entry(insert_all(e, kvs.drop_last()), last.0, last.1)
    }
}

/// The value stored under `k`, if any.
pub open spec fn lookup(e: Entries, k: Seq<char>) -> Option<Seq<char>> {
    if has_key(e, k) {
        let i = choose|i: int| 0 <= i < e.len() && e[i].0 == k;
        Some(e[i].1)
    } else {
        None
    }
}

/// Inserting keeps keys distinct, and the key is present afterwards.
pub proof fn lemma_insert_entry_unique(e: Entries, k: Seq<char>, v: Seq<char>)
    requires
        keys_unique(e),
    ensures
        keys_unique(insert_entry(e, k, v)),
        has_key(insert_entry(e, k, v), k),
{
    let r = insert_entry(e, k, v);
    if has_key(e, k) {
        let i = choose|i: int| 0 <= i < e.len() && e[i].0 == k;
        assert(r[i].0 == k);
    } else {
        assert(r[e.len() as int].0 == k);
    }
}

/// Inserting a sequence of pairs keeps keys distinct.
pub proof fn lemma_insert_all_unique(e: Entries, kvs: Entries)
    requires
        keys_unique(e),
    ensures
        keys_unique(insert_all(e, kvs)),
    decreases kvs.len(),
{
    if kvs.len() > 0 {
        lemma_insert_all_unique(e, kvs.drop_last());
        lemma_insert_entry_unique(insert_all(e, kvs.drop_last()), kvs.last().0, kvs.last().1);
    }
}

/// Views of a vector of string pairs.
pub open spec fn pair_views(v: Seq<(String, String)>) -> Entries {
    v.map_values(|p: (String, String)| (p.0@, p.1@))
}

/// A map from strings to strings that remembers the order in which keys
/// were first written.
#[derive(Debug, PartialEq, Eq)]
pub struct StringMap {
    entries: Vec<(String, String)>,
}

impl View for StringMap {
    type V = Entries;

    closed spec fn view(&self) -> Entries {
        self.entries@.map_values(|p: (String, String)| (p.0@, p.1@))
    }
}

impl StringMap {
    /// The map's entries keep their keys distinct.
    pub open spec fn wf(&self) -> bool {
        keys_unique(self@)
    }

    pub fn new() -> (r: StringMap)
        ensures
            r@ == Seq::<(Seq<char>, Seq<char>)>::empty(),
            r.wf(),
    {
        StringMap { entries: Vec::new() }
    }

    /// The entries in insertion order.
    pub fn entries(&self) -> (r: &Vec<(String, String)>)
        ensures
            pair_views(r@) == self@,
    {
        &self.entries
    }

    /// Writes `value` under `key`; a later write to a key replaces the
    /// earlier value in place.
    pub fn insert(&mut self, key: String, value: String)
        requires
            old(self).wf(),
        ensures
            final(self)@ == insert_entry(old(self)@, key@, value@),
            final(self).wf(),
    {
        let ghost e = self@;
        let n = self.entries.len();
        let mut i: usize = 0;
        while i < n
            invariant
                n == self.entries.len(),
                self@ == e,
                e == old(self)@,
                keys_unique(e),
                i <= n,
                forall|j: int| 0 <= j < i ==> e[j].0 != key@,
            decreases n - i,
        {
            if self.entries[i].0 == key {
                proof {
                    assert(e[i as int] == (self.entries@[i as int].0@, self.entries@[i as int].1@));
                    assert(e[i as int].0 == key@);
                    let c = choose|c: int| 0 <= c < e.len() && e[c].0 == key@;
                    assert(c == i);
                }
                self.entries.set(i, (key, value));
                proof {
                    assert(self@ =~= insert_entry(e, key@, value@));
                    lemma_insert_entry_unique(e, key@, value@);
                }
                return;
            }
            i = i + 1;
        }
        self.entries.push((key, value));
        proof {
            assert(!has_key(e, key@));
            assert(self@ =~= insert_entry(e, key@, value@));
            lemma_insert_entry_unique(e, key@, value@);
        }
    }

    /// Writes each pair in turn, as [`StringMap::insert`] does.
    pub fn extend(&mut self, pairs: &Vec<(String, String)>)
        requires
            old(self).wf(),
        ensures
            final(self)@ == insert_all(old(self)@, pair_views(pairs@)),
            final(self).wf(),
    {
        let mut i: usize = 0;
        proof {
            assert(pair_views(pairs@).take(0) =~= Seq::<(Seq<char>, Seq<char>)>::empty());
        }
        while i < pairs.len()
            invariant
                i <= pairs.len(),
                self.wf(),
                self@ == insert_all(old(self)@, pair_views(pairs@).take(i as int)),
            decreases pairs.len() - i,
        {
            proof {
                let next = pair_views(pairs@).take(i + 1);
                assert(next.drop_last() =~= pair_views(pairs@).take(i as int));
                assert(next.last() == (pairs@[i as int].0@, pairs@[i as int].1@));
            }
            self.insert(pairs[i].0.clone(), pairs[i].1.clone());
            i = i + 1;
        }
        proof {
            assert(pair_views(pairs@).take(pairs@.len() as int) =~= pair_views(pairs@));
        }
    }
}

} // verus!

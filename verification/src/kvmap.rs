//! An association-list map with a `Map` view, used as the store behind each
//! cache.  Entries are only ever added or overwritten, never removed: the
//! caches have no eviction.

use vstd::prelude::*;
use vstd::pervasive::VecAdditionalExecFns;

verus! {

/// A key type usable by [`AssocMap`]: it can decide equality of its own
/// mathematical view.
pub trait MapKey: Sized + View {
    fn key_eq(&self, other: &Self) -> (r: bool)
        ensures
            r == (self@ == other@),
    ;
}

impl MapKey for String {
    fn key_eq(&self, other: &Self) -> (r: bool)
        ensures
            r == (self@ == other@),
    {
        self.eq(other)
    }
}

pub struct AssocMap<K, V> {
    entries: Vec<(K, V)>,
}

impl<K: MapKey, V> AssocMap<K, V> {
    /// The map that a sequence of key-value entries denotes; a later entry
    /// for a key overrides an earlier one.
    pub closed spec fn kv_map(s: Seq<(K, V)>) -> Map<K::V, V>
        decreases s.len(),
    {
        if s.len() == 0 {
            Map::empty()
        } else {
            Self::kv_map(s.drop_last()).insert(s.last().0@, s.last().1)
        }
    }

    pub closed spec fn view(&self) -> Map<K::V, V> {
        Self::kv_map(self.entries@)
    }

    /// The entries in insertion order; the persistence codec walks them.
    pub closed spec fn entries_seq(&self) -> Seq<(K, V)> {
        self.entries@
    }

    /// No two entries carry the same key.
    pub closed spec fn wf(&self) -> bool {
        forall|i: int, j: int|
            0 <= i < j < self.entries@.len() ==> self.entries@[i].0@ != self.entries@[j].0@
    }

    proof fn lemma_kv_map_domain(s: Seq<(K, V)>, k: K::V)
        ensures
            Self::kv_map(s).contains_key(k) <==> exists|i: int| 0 <= i < s.len() && s[i].0@ == k,
        decreases s.len(),
    {
        if s.len() > 0 {
            Self::lemma_kv_map_domain(s.drop_last(), k);
            if s.last().0@ != k && Self::kv_map(s).contains_key(k) {
                let i = choose|i: int| 0 <= i < s.drop_last().len() && s.drop_last()[i].0@ == k;
                assert(s[i].0@ == k);
            }
            if exists|i: int| 0 <= i < s.len() && s[i].0@ == k {
                let i = choose|i: int| 0 <= i < s.len() && s[i].0@ == k;
                if i < s.len() - 1 {
                    assert(s.drop_last()[i].0@ == k);
                }
            }
        }
    }

    proof fn lemma_kv_map_get(s: Seq<(K, V)>, i: int)
        requires
            forall|p: int, q: int| 0 <= p < q < s.len() ==> s[p].0@ != s[q].0@,
            0 <= i < s.len(),
        ensures
            Self::kv_map(s).contains_key(s[i].0@),
            Self::kv_map(s)[s[i].0@] == s[i].1,
        decreases s.len(),
    {
        Self::lemma_kv_map_domain(s, s[i].0@);
        if i < s.len() - 1 {
            assert(s.last().0@ != s[i].0@);
            assert(s.drop_last()[i] == s[i]);
            Self::lemma_kv_map_get(s.drop_last(), i);
        }
    }

    proof fn lemma_kv_map_update(s: Seq<(K, V)>, i: int, k: K, v: V)
        requires
            forall|p: int, q: int| 0 <= p < q < s.len() ==> s[p].0@ != s[q].0@,
            0 <= i < s.len(),
            s[i].0@ == k@,
        ensures
            Self::kv_map(s.update(i, (k, v))) =~= Self::kv_map(s).insert(k@, v),
        decreases s.len(),
    {
        let t = s.update(i, (k, v));
        if i == s.len() - 1 {
            assert(t.drop_last() =~= s.drop_last());
            assert(t.last() == (k, v));
        } else {
            assert(t.drop_last() =~= s.drop_last().update(i, (k, v)));
            assert(s.drop_last()[i] == s[i]);
            Self::lemma_kv_map_update(s.drop_last(), i, k, v);
            assert(t.last() == s.last());
            assert(s.last().0@ != k@);
        }
    }

    pub fn new() -> (r: Self)
        ensures
            r@ == Map::<K::V, V>::empty(),
            r.wf(),
            r.entries_seq() == Seq::<(K, V)>::empty(),
    {
        AssocMap { entries: Vec::new() }
    }

    /// Index of the entry that holds `k`, if any.
    fn find(&self, k: &K) -> (r: Option<usize>)
        ensures
            match r {
                Some(i) => i < self.entries@.len() && self.entries@[i as int].0@ == k@,
                None => forall|i: int| 0 <= i < self.entries@.len() ==> self.entries@[i].0@ != k@,
            },
    {
        let n = self.entries.len();
        let mut i: usize = 0;
        while i < n
            invariant
                n == self.entries@.len(),
                i <= n,
                forall|j: int| 0 <= j < i ==> self.entries@[j].0@ != k@,
            decreases n - i,
        {
            if self.entries[i].0.key_eq(k) {
                return Some(i);
            }
            i += 1;
        }
        None
    }

    pub fn get(&self, k: &K) -> (r: Option<&V>)
        requires
            self.wf(),
        ensures
            match r {
                Some(v) => self@.contains_key(k@) && *v == self@[k@],
                None => !self@.contains_key(k@),
            },
    {
        proof {
            Self::lemma_kv_map_domain(self.entries@, k@);
        }
        match self.find(k) {
            Some(i) => {
                proof {
                    Self::lemma_kv_map_get(self.entries@, i as int);
                }
                let entry = &self.entries[i];
                proof {
                    assert(*entry == self.entries@[i as int]);
                }
                Some(&entry.1)
            },
            None => {
                proof {
                    if self@.contains_key(k@) {
                        let i = choose|i: int|
                            0 <= i < self.entries@.len() && self.entries@[i].0@ == k@;
                        assert(self.entries@[i].0@ != k@);
                    }
                }
                None
            },
        }
    }

    pub fn insert(&mut self, k: K, v: V)
        requires
            old(self).wf(),
        ensures
            final(self).wf(),
            final(self)@ =~= old(self)@.insert(k@, v),
            final(self).entries_seq().len() >= old(self).entries_seq().len(),
    {
        match self.find(&k) {
            Some(i) => {
                proof {
                    Self::lemma_kv_map_update(self.entries@, i as int, k, v);
                }
                self.entries.set(i, (k, v));
            },
            None => {
                proof {
                    assert(self.entries@.push((k, v)).drop_last() =~= self.entries@);
                }
                self.entries.push((k, v));
            },
        }
    }

    /// How many keys the map holds.
    pub fn len(&self) -> (r: usize)
        requires
            self.wf(),
        ensures
            r == self.entries_seq().len(),
            r == self@.dom().len(),
    {
        proof {
            Self::lemma_len(self.entries@);
        }
        self.entries.len()
    }

    proof fn lemma_len(s: Seq<(K, V)>)
        requires
            forall|p: int, q: int| 0 <= p < q < s.len() ==> s[p].0@ != s[q].0@,
        ensures
            Self::kv_map(s).dom().finite(),
            Self::kv_map(s).dom().len() == s.len(),
        decreases s.len(),
    {
        if s.len() > 0 {
            Self::lemma_len(s.drop_last());
            Self::lemma_kv_map_domain(s.drop_last(), s.last().0@);
            assert(!Self::kv_map(s.drop_last()).contains_key(s.last().0@));
        }
    }

    /// The entry at position `i`, for walking the map's contents.
    pub fn entry_at(&self, i: usize) -> (r: &(K, V))
        requires
            i < self.entries_seq().len(),
        ensures
            *r == self.entries_seq()[i as int],
    {
        &self.entries[i]
    }

    /// The number of stored entries, without the well-formedness premise.
    pub fn entry_count(&self) -> (r: usize)
        ensures
            r == self.entries_seq().len(),
    {
        self.entries.len()
    }

    /// How the map's view unfolds over the entry list, for callers that
    /// walk the entries.
    pub proof fn lemma_kv_map_unfold(s: Seq<(K, V)>)
        ensures
            s.len() == 0 ==> Self::kv_map(s) == Map::<K::V, V>::empty(),
            s.len() > 0 ==> Self::kv_map(s) == Self::kv_map(s.drop_last()).insert(
                s.last().0@,
                s.last().1,
            ),
    {
    }

    /// The map's view is exactly the fold of its entry list.
    pub proof fn lemma_view_is_kv_map(&self)
        ensures
            self@ == Self::kv_map(self.entries_seq()),
    {
    }

    /// Every entry's key-value pair is in the map's view.
    pub proof fn lemma_entries_in_view(&self, i: int)
        requires
            self.wf(),
            0 <= i < self.entries_seq().len(),
        ensures
            self@.contains_key(self.entries_seq()[i].0@),
            self@[self.entries_seq()[i].0@] == self.entries_seq()[i].1,
    {
        Self::lemma_kv_map_get(self.entries@, i);
    }

    /// Every key in the map's view is some entry's key.
    pub proof fn lemma_view_in_entries(&self, k: K::V)
        requires
            self@.contains_key(k),
        ensures
            exists|i: int| 0 <= i < self.entries_seq().len() && self.entries_seq()[i].0@ == k,
    {
        Self::lemma_kv_map_domain(self.entries@, k);
        let i = choose|i: int| 0 <= i < self.entries@.len() && self.entries@[i].0@ == k;
        assert(0 <= i < self.entries_seq().len() && self.entries_seq()[i].0@ == k);
    }
}

} // verus!

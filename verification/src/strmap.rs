//! An association map with string keys, kept as a vector of pairs with
//! pairwise-distinct keys. The order of first insertion is preserved, and
//! inserting an existing key overwrites its value in place ("last wins").
//!
//! Contracts are stated over two views: the ordered sequence of entries
//! (`pairs`) and the induced `Map` from key view to value (`spec_map`).

use vstd::prelude::*;
use crate::strutil::str_eq_str;

verus! {

/// The map induced by a sequence of key/value pairs; later pairs win.
pub open spec fn pairs_to_map<V>(pairs: Seq<(Seq<char>, V)>) -> Map<Seq<char>, V>
    decreases pairs.len(),
{
    if pairs.len() == 0 {
        Map::empty()
    } else {
        pairs_to_map(pairs.drop_last()).insert(pairs.last().0, pairs.last().1)
    }
}

#[derive(Debug)]
pub struct StrMap<V> {
    entries: Vec<(String, V)>,
}

impl<V> StrMap<V> {
    /// The ordered entries, with keys as character sequences.
    pub closed spec fn pairs(&self) -> Seq<(Seq<char>, V)> {
        Seq::new(self.entries@.len(), |i: int| (self.entries@[i].0@, self.entries@[i].1))
    }

    /// The induced key-to-value map.
    pub open spec fn spec_map(&self) -> Map<Seq<char>, V> {
        pairs_to_map(self.pairs())
    }

    /// Well-formedness: keys are pairwise distinct.
    pub open spec fn wf(&self) -> bool {
        forall|i: int, j: int|
            0 <= i < j < self.pairs().len() ==> self.pairs()[i].0 != self.pairs()[j].0
    }

    pub fn new() -> (r: Self)
        ensures
            r.wf(),
            r.pairs() == Seq::<(Seq<char>, V)>::empty(),
            r.spec_map() == Map::<Seq<char>, V>::empty(),
    {
        let r = StrMap { entries: Vec::new() };
        proof {
            assert(r.pairs() =~= Seq::<(Seq<char>, V)>::empty());
        }
        r
    }

    pub fn len(&self) -> (r: usize)
        ensures
            r == self.pairs().len(),
    {
        self.entries.len()
    }

    /// The position of `k` among the entries, if present.
    fn position_of(&self, k: &str) -> (r: Option<usize>)
        ensures
            match r {
                Some(i) => i < self.pairs().len() && self.pairs()[i as int].0 == k@,
                None => forall|i: int| 0 <= i < self.pairs().len() ==> self.pairs()[i].0 != k@,
            },
    {
        let n: usize = self.entries.len();
        let mut i: usize = 0;
        while i < n
            invariant
                0 <= i <= n,
                n == self.pairs().len(),
                n == self.entries@.len(),
                forall|j: int| 0 <= j < i ==> self.pairs()[j].0 != k@,
            decreases n - i,
        {
            if str_eq_str(self.entries[i].0.as_str(), k) {
                return Some(i);
            }
            i = i + 1;
        }
        None
    }

    /// Inserts `v` under `k`: overwrites in place if `k` is present, appends
    /// otherwise.
    pub fn insert(&mut self, k: String, v: V)
        requires
            old(self).wf(),
        ensures
            final(self).wf(),
            final(self).spec_map() == old(self).spec_map().insert(k@, v),
            old(self).spec_map().contains_key(k@) ==> final(self).pairs().len() == old(
                self,
            ).pairs().len(),
            !old(self).spec_map().contains_key(k@) ==> final(self).pairs() == old(
                self,
            ).pairs().push((k@, v)),
    {
        let ghost old_pairs = self.pairs();
        match self.position_of(k.as_str()) {
            Some(i) => {
                proof {
                    lemma_ptm_contains_at(old_pairs, i as int);
                }
                self.entries[i] = (k, v);
                proof {
                    assert(self.pairs() =~= old_pairs.update(i as int, (k@, v)));
                    lemma_ptm_update(old_pairs, i as int, v);
                }
            },
            None => {
                proof {
                    lemma_ptm_no_key(old_pairs, k@);
                }
                self.entries.push((k, v));
                proof {
                    assert(self.pairs() =~= old_pairs.push((k@, v)));
                    assert(self.pairs().drop_last() =~= old_pairs);
                }
            },
        }
    }

    /// Looks up the value stored under `k`.
    pub fn get(&self, k: &str) -> (r: Option<&V>)
        requires
            self.wf(),
        ensures
            match r {
                Some(v) => self.spec_map().contains_key(k@) && *v == self.spec_map()[k@],
                None => !self.spec_map().contains_key(k@),
            },
    {
        match self.position_of(k) {
            Some(i) => {
                proof {
                    lemma_ptm_contains_at(self.pairs(), i as int);
                }
                Some(&self.entries[i].1)
            },
            None => {
                proof {
                    lemma_ptm_no_key(self.pairs(), k@);
                }
                None
            },
        }
    }

    /// Whether `k` is present.
    pub fn contains_key(&self, k: &str) -> (r: bool)
        requires
            self.wf(),
        ensures
            r == self.spec_map().contains_key(k@),
    {
        match self.get(k) {
            Some(_) => true,
            None => false,
        }
    }

    /// The key of the entry at position `i`.
    pub fn key_at(&self, i: usize) -> (r: &String)
        requires
            i < self.pairs().len(),
        ensures
            r@ == self.pairs()[i as int].0,
    {
        &self.entries[i].0
    }

    /// The value of the entry at position `i`.
    pub fn value_at(&self, i: usize) -> (r: &V)
        requires
            i < self.pairs().len(),
        ensures
            *r == self.pairs()[i as int].1,
    {
        &self.entries[i].1
    }
}

impl StrMap<String> {
    /// The induced map with both keys and values as character sequences.
    pub open spec fn string_view(&self) -> Map<Seq<char>, Seq<char>> {
        Map::new(
            |k: Seq<char>| self.spec_map().dom().contains(k),
            |k: Seq<char>| self.spec_map()[k]@,
        )
    }
}

/// In a well-formed pair sequence, the entry at `i` is in the induced map.
proof fn lemma_ptm_contains_at<V>(pairs: Seq<(Seq<char>, V)>, i: int)
    requires
        0 <= i < pairs.len(),
        forall|a: int, b: int| 0 <= a < b < pairs.len() ==> pairs[a].0 != pairs[b].0,
    ensures
        pairs_to_map(pairs).contains_key(pairs[i].0),
        pairs_to_map(pairs)[pairs[i].0] == pairs[i].1,
    decreases pairs.len(),
{
    if i == pairs.len() - 1 {
    } else {
        lemma_ptm_contains_at(pairs.drop_last(), i);
        assert(pairs.last().0 != pairs[i].0);
    }
}

/// A key appearing in no entry is not in the induced map.
proof fn lemma_ptm_no_key<V>(pairs: Seq<(Seq<char>, V)>, k: Seq<char>)
    requires
        forall|i: int| 0 <= i < pairs.len() ==> pairs[i].0 != k,
    ensures
        !pairs_to_map(pairs).contains_key(k),
    decreases pairs.len(),
{
    if pairs.len() > 0 {
        lemma_ptm_no_key(pairs.drop_last(), k);
    }
}

/// Overwriting the entry holding key `k` in place updates the induced map as
/// a single `insert`.
proof fn lemma_ptm_update<V>(pairs: Seq<(Seq<char>, V)>, i: int, v: V)
    requires
        0 <= i < pairs.len(),
        forall|a: int, b: int| 0 <= a < b < pairs.len() ==> pairs[a].0 != pairs[b].0,
    ensures
        pairs_to_map(pairs.update(i, (pairs[i].0, v))) == pairs_to_map(pairs).insert(
            pairs[i].0,
            v,
        ),
    decreases pairs.len(),
{
    let k = pairs[i].0;
    let updated = pairs.update(i, (k, v));
    if i == pairs.len() - 1 {
        assert(updated.drop_last() =~= pairs.drop_last());
        assert(pairs_to_map(updated) =~= pairs_to_map(pairs).insert(k, v));
    } else {
        assert(updated.drop_last() =~= pairs.drop_last().update(i, (k, v)));
        lemma_ptm_update(pairs.drop_last(), i, v);
        assert(pairs.last().0 != k);
        assert(pairs_to_map(updated) =~= pairs_to_map(pairs).insert(k, v));
    }
}

} // verus!

//! A mapping from strings to strings, kept as a list of pairs with distinct
//! keys so that the order of first insertion is preserved.
//!
//! Both the version mapping of a manifest and the binary index are of this
//! shape.

use vstd::prelude::*;

verus! {

/// The mapping that a sequence of (key, value) pairs denotes; a later pair
/// wins when keys repeat.
pub open spec fn pairs_map(ps: Seq<(Seq<char>, Seq<char>)>) -> Map<Seq<char>, Seq<char>>
    decreases ps.len(),
{
    if ps.len() == 0 {
        Map::empty()
    } else {
        pairs_map(ps.drop_last()).insert(ps.last().0, ps.last().1)
    }
}

/// Pairwise distinct keys.
pub open spec fn distinct_keys(ps: Seq<(Seq<char>, Seq<char>)>) -> bool {
    forall|i: int, j: int| 0 <= i < j < ps.len() ==> ps[i].0 != ps[j].0
}

pub proof fn lemma_pairs_map_contains(ps: Seq<(Seq<char>, Seq<char>)>, k: Seq<char>)
    ensures
        pairs_map(ps).contains_key(k) <==> exists|i: int| 0 <= i < ps.len() && ps[i].0 == k,
    decreases ps.len(),
{
    if ps.len() > 0 {
        lemma_pairs_map_contains(ps.drop_last(), k);
        if ps.last().0 != k && pairs_map(ps).contains_key(k) {
            let i = choose|i: int| 0 <= i < ps.drop_last().len() && ps.drop_last()[i].0 == k;
            assert(ps[i].0 == k);
        }
        if exists|i: int| 0 <= i < ps.len() && ps[i].0 == k {
            let i = choose|i: int| 0 <= i < ps.len() && ps[i].0 == k;
            if i < ps.len() - 1 {
                assert(ps.drop_last()[i].0 == k);
            }
        }
    }
}

pub proof fn lemma_pairs_map_at(ps: Seq<(Seq<char>, Seq<char>)>, i: int)
    requires
        distinct_keys(ps),
        0 <= i < ps.len(),
    ensures
        pairs_map(ps).contains_key(ps[i].0),
        pairs_map(ps)[ps[i].0] == ps[i].1,
    decreases ps.len(),
{
    if i == ps.len() - 1 {
    } else {
        lemma_pairs_map_at(ps.drop_last(), i);
        assert(ps.drop_last()[i] == ps[i]);
    }
}

/// A string-keyed table with distinct keys, in insertion order.
pub struct StrTable {
    pub pairs: Vec<(String, String)>,
}

impl StrTable {
    /// The pairs, as mathematical sequences.
    pub open spec fn view_pairs(self) -> Seq<(Seq<char>, Seq<char>)> {
        self.pairs.deep_view()
    }

    /// The mapping this table holds.
    pub open spec fn as_map(self) -> Map<Seq<char>, Seq<char>> {
        pairs_map(self.view_pairs())
    }

    /// The keys, in the order the table keeps them.
    pub open spec fn keys_seq(self) -> Seq<Seq<char>> {
        self.view_pairs().map_values(|p: (Seq<char>, Seq<char>)| p.0)
    }

    pub open spec fn wf(self) -> bool {
        distinct_keys(self.view_pairs())
    }

    pub fn new() -> (r: StrTable)
        ensures
            r.wf(),
            r.as_map() == Map::<Seq<char>, Seq<char>>::empty(),
            r.view_pairs() == Seq::<(Seq<char>, Seq<char>)>::empty(),
    {
        let r = StrTable { pairs: Vec::new() };
        proof {
            assert(r.view_pairs() =~= Seq::<(Seq<char>, Seq<char>)>::empty());
        }
        r
    }

    pub fn len(&self) -> (n: usize)
        ensures
            n == self.view_pairs().len(),
    {
        self.pairs.len()
    }

    /// The position of `key` among the pairs, if it is there.
    fn find(&self, key: &String) -> (r: Option<usize>)
        requires
            self.wf(),
        ensures
            match r {
                Some(i) => i < self.view_pairs().len() && self.view_pairs()[i as int].0 == key@,
                None => !self.as_map().contains_key(key@),
            },
    {
        let n = self.pairs.len();
        let mut i: usize = 0;
        while i < n
            invariant
                n == self.pairs.len(),
                i <= n,
                forall|j: int| 0 <= j < i ==> self.view_pairs()[j].0 != key@,
            decreases n - i,
        {
            if self.pairs[i].0 == *key {
                assert(self.view_pairs()[i as int].0 == key@);
                return Some(i);
            }
            i += 1;
        }
        proof {
            lemma_pairs_map_contains(self.view_pairs(), key@);
        }
        None
    }

    /// The value under `key`, if any.
    pub fn get(&self, key: &String) -> (r: Option<&String>)
        requires
            self.wf(),
        ensures
            match r {
                Some(v) => self.as_map().contains_key(key@) && v@ == self.as_map()[key@],
                None => !self.as_map().contains_key(key@),
            },
    {
        match self.find(key) {
            Some(i) => {
                proof {
                    lemma_pairs_map_at(self.view_pairs(), i as int);
                }
                Some(&self.pairs[i].1)
            },
            None => None,
        }
    }

    pub fn contains(&self, key: &String) -> (r: bool)
        requires
            self.wf(),
        ensures
            r == self.as_map().contains_key(key@),
    {
        match self.find(key) {
            Some(i) => {
                proof {
                    lemma_pairs_map_at(self.view_pairs(), i as int);
                }
                true
            },
            None => false,
        }
    }

    /// Binds `key` to `value`, replacing in place what was bound before, or
    /// appending a fresh binding.
    pub fn insert(&mut self, key: String, value: String)
        requires
            old(self).wf(),
        ensures
            final(self).wf(),
            final(self).as_map() == old(self).as_map().insert(key@, value@),
            old(self).as_map().contains_key(key@) ==> final(self).keys_seq() == old(
                self,
            ).keys_seq(),
            !old(self).as_map().contains_key(key@) ==> final(self).keys_seq() == old(
                self,
            ).keys_seq().push(key@),
            !old(self).as_map().contains_key(key@) ==> final(self).view_pairs() == old(
                self,
            ).view_pairs().push((key@, value@)),
            old(self).as_map().contains_key(key@) ==> exists|i: int|
                0 <= i < old(self).view_pairs().len() && #[trigger] old(self).view_pairs()[i].0
                    == key@ && final(self).view_pairs() == old(self).view_pairs().update(
                    i,
                    (key@, value@),
                ),
    {
        let ghost ps0 = self.view_pairs();
        let ghost k = key@;
        match self.find(&key) {
            Some(i) => {
                self.pairs[i] = (key, value);
                proof {
                    let ps1 = self.view_pairs();
                    assert(ps1 =~= ps0.update(i as int, (ps0[i as int].0, value@)));
                    lemma_pairs_map_update(ps0, i as int, value@);
                    lemma_pairs_map_contains(ps0, k);
                    assert(ps1.map_values(|p: (Seq<char>, Seq<char>)| p.0) =~= ps0.map_values(
                        |p: (Seq<char>, Seq<char>)| p.0,
                    ));
                }
            },
            None => {
                self.pairs.push((key, value));
                proof {
                    let ps1 = self.view_pairs();
                    assert(ps1.drop_last() =~= ps0);
                    assert(forall|j: int| 0 <= j < ps0.len() ==> ps1[j] == ps0[j]);
                    assert(ps1.last().0 == k && ps1.last().1 == value@);
                    lemma_pairs_map_contains(ps0, k);
                    assert(distinct_keys(ps1));
                    assert(ps1 =~= ps0.push((k, value@)));
                    assert(ps1.map_values(|p: (Seq<char>, Seq<char>)| p.0) =~= ps0.map_values(
                        |p: (Seq<char>, Seq<char>)| p.0,
                    ).push(k));
                }
            },
        }
    }

    /// Drops the binding of `key`, returning what it was bound to.
    pub fn remove(&mut self, key: &String) -> (r: Option<String>)
        requires
            old(self).wf(),
        ensures
            final(self).wf(),
            final(self).as_map() == old(self).as_map().remove(key@),
            match r {
                Some(v) => old(self).as_map().contains_key(key@) && v@ == old(self).as_map()[key@]
                    && exists|i: int|
                    0 <= i < old(self).view_pairs().len() && #[trigger] old(self).view_pairs()[i].0
                        == key@ && final(self).view_pairs() == old(self).view_pairs().remove(i),
                None => !old(self).as_map().contains_key(key@) && *final(self) == *old(self),
            },
    {
        let ghost ps0 = self.view_pairs();
        match self.find(key) {
            Some(i) => {
                proof {
                    lemma_pairs_map_at(ps0, i as int);
                }
                let p = self.pairs.remove(i);
                proof {
                    assert(self.view_pairs() =~= ps0.remove(i as int));
                    lemma_pairs_map_remove(ps0, i as int);
                }
                Some(p.1)
            },
            None => {
                proof {
                    assert(pairs_map(ps0).remove(key@) =~= pairs_map(ps0));
                }
                None
            },
        }
    }

    /// The keys, in order.
    pub fn keys(&self) -> (r: Vec<String>)
        ensures
            r.deep_view() == self.keys_seq(),
    {
        let mut r: Vec<String> = Vec::new();
        let n = self.pairs.len();
        let mut i: usize = 0;
        while i < n
            invariant
                n == self.pairs.len(),
                i <= n,
                r@.len() == i,
                forall|j: int| 0 <= j < i ==> r.deep_view()[j] == self.view_pairs()[j].0,
            decreases n - i,
        {
            let ghost rv0 = r@;
            let ghost dv0 = r.deep_view();
            r.push(self.pairs[i].0.clone());
            proof {
                assert forall|j: int| 0 <= j < i as int + 1 implies r.deep_view()[j]
                    == self.view_pairs()[j].0 by {
                    assert(r.deep_view()[j] == r@[j].deep_view());
                    if j < i as int {
                        assert(r@[j] == rv0[j]);
                        assert(dv0[j] == rv0[j].deep_view());
                    } else {
                        assert(r@[j] == self.pairs@[i as int].0);
                    }
                }
            }
            i += 1;
        }
        proof {
            assert(r.deep_view() =~= self.keys_seq());
        }
        r
    }
}

pub proof fn lemma_pairs_map_update(ps: Seq<(Seq<char>, Seq<char>)>, i: int, v: Seq<char>)
    requires
        distinct_keys(ps),
        0 <= i < ps.len(),
    ensures
        distinct_keys(ps.update(i, (ps[i].0, v))),
        pairs_map(ps.update(i, (ps[i].0, v))) == pairs_map(ps).insert(ps[i].0, v),
    decreases ps.len(),
{
    let q = ps.update(i, (ps[i].0, v));
    assert(distinct_keys(q));
    if i == ps.len() - 1 {
        assert(q.drop_last() =~= ps.drop_last());
        assert(pairs_map(q) =~= pairs_map(ps).insert(ps[i].0, v));
    } else {
        assert(ps.update(i, (ps[i].0, v)).drop_last() =~= ps.drop_last().update(
            i,
            (ps.drop_last()[i].0, v),
        ));
        lemma_pairs_map_update(ps.drop_last(), i, v);
        assert(q.last() == ps.last());
        assert(pairs_map(q) == pairs_map(ps.drop_last()).insert(ps[i].0, v).insert(
            ps.last().0,
            ps.last().1,
        ));
        assert(ps[i].0 != ps.last().0);
        assert(pairs_map(ps.drop_last()).insert(ps[i].0, v).insert(ps.last().0, ps.last().1)
            =~= pairs_map(ps.drop_last()).insert(ps.last().0, ps.last().1).insert(ps[i].0, v));
    }
}

pub proof fn lemma_pairs_map_remove(ps: Seq<(Seq<char>, Seq<char>)>, i: int)
    requires
        distinct_keys(ps),
        0 <= i < ps.len(),
    ensures
        distinct_keys(ps.remove(i)),
        pairs_map(ps.remove(i)) == pairs_map(ps).remove(ps[i].0),
    decreases ps.len(),
{
    let q = ps.remove(i);
    assert(distinct_keys(q));
    if i == ps.len() - 1 {
        assert(q =~= ps.drop_last());
        lemma_pairs_map_contains(ps.drop_last(), ps[i].0);
        assert(pairs_map(q) =~= pairs_map(ps).remove(ps[i].0));
    } else {
        assert(q.drop_last() =~= ps.drop_last().remove(i));
        lemma_pairs_map_remove(ps.drop_last(), i);
        assert(q.last() == ps.last());
        assert(pairs_map(q) == pairs_map(ps.drop_last()).remove(ps[i].0).insert(
            ps.last().0,
            ps.last().1,
        ));
        assert(ps[i].0 != ps.last().0);
        assert(pairs_map(ps.drop_last()).remove(ps[i].0).insert(ps.last().0, ps.last().1)
            =~= pairs_map(ps.drop_last()).insert(ps.last().0, ps.last().1).remove(ps[i].0));
    }
}

} // verus!

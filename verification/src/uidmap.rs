//! Maps and sets keyed by node identity.

use crate::uid::{same_uid, NodeUid, Uid};
use vstd::prelude::*;

verus! {

/// Whether no two pairs share a key.
pub open spec fn keys_unique<V>(s: Seq<(NodeUid, V)>) -> bool {
    forall|i: int, j: int| 0 <= i < j < s.len() ==> (#[trigger] s[i]).0@ != (#[trigger] s[j]).0@
}

/// The map that a list of pairs stands for.
pub open spec fn pairs_map<V>(s: Seq<(NodeUid, V)>) -> Map<Uid, V>
    decreases s.len(),
{
    if s.len() == 0 {
        Map::empty()
    } else {
        pairs_map(s.drop_last()).insert(s.last().0@, s.last().1)
    }
}

proof fn lemma_pairs_map<V>(s: Seq<(NodeUid, V)>)
    ensures
        pairs_map(s).dom().finite(),
        forall|u: Uid| #[trigger]
            pairs_map(s).dom().contains(u) <==> exists|i: int|
                0 <= i < s.len() && (#[trigger] s[i]).0@ == u,
        keys_unique(s) ==> pairs_map(s).dom().len() == s.len(),
        keys_unique(s) ==> forall|i: int|
            0 <= i < s.len() ==> pairs_map(s)[(#[trigger] s[i]).0@] == s[i].1,
    decreases s.len(),
{
    if s.len() > 0 {
        let t = s.drop_last();
        lemma_pairs_map(t);
        assert forall|u: Uid| #[trigger] pairs_map(s).dom().contains(u) implies exists|i: int|
            0 <= i < s.len() && (#[trigger] s[i]).0@ == u by {
            if u == s.last().0@ {
                assert(s[s.len() - 1].0@ == u);
            } else {
                assert(pairs_map(t).dom().contains(u));
                let i = choose|i: int| 0 <= i < t.len() && (#[trigger] t[i]).0@ == u;
                assert(s[i].0@ == u);
            }
        }
        assert forall|u: Uid|
            (exists|i: int| 0 <= i < s.len() && (#[trigger] s[i]).0@
                == u) implies #[trigger] pairs_map(s).dom().contains(u) by {
            let i = choose|i: int| 0 <= i < s.len() && (#[trigger] s[i]).0@ == u;
            if i < s.len() - 1 {
                assert(t[i].0@ == u);
                assert(pairs_map(t).dom().contains(u));
            }
        }
        if keys_unique(s) {
            assert(keys_unique(t)) by {
                assert forall|i: int, j: int| 0 <= i < j < t.len() implies (#[trigger] t[i]).0@ != (
                #[trigger] t[j]).0@ by {
                    assert(s[i].0@ != s[j].0@);
                }
            }
            assert(!pairs_map(t).dom().contains(s.last().0@)) by {
                if pairs_map(t).dom().contains(s.last().0@) {
                    let i = choose|i: int|
                        0 <= i < t.len() && (#[trigger] t[i]).0@ == s.last().0@;
                    assert(s[i].0@ == s[s.len() - 1].0@);
                }
            }
            assert forall|i: int| 0 <= i < s.len() implies pairs_map(s)[(#[trigger] s[i]).0@]
                == s[i].1 by {
                if i < s.len() - 1 {
                    assert(t[i] == s[i]);
                    assert(s[i].0@ != s[s.len() - 1].0@);
                }
            }
        }
    }
}

/// A map from node identities.
pub struct UidMap<V> {
    items: Vec<(NodeUid, V)>,
}

impl<V> View for UidMap<V> {
    type V = Map<Uid, V>;

    closed spec fn view(&self) -> Map<Uid, V> {
        pairs_map(self.items@)
    }
}

impl<V> UidMap<V> {
    #[verifier::type_invariant]
    closed spec fn inv(&self) -> bool {
        keys_unique(self.items@)
    }

    /// The keys, in the order in which the map is walked.
    pub closed spec fn keys(&self) -> Seq<Uid> {
        self.items@.map_values(|p: (NodeUid, V)| p.0@)
    }

    pub fn new() -> (r: Self)
        ensures
            r@ == Map::<Uid, V>::empty(),
    {
        UidMap { items: Vec::new() }
    }

    fn position(&self, uid: &NodeUid) -> (r: Option<usize>)
        ensures
            match r {
                Some(i) => i < self.items@.len() && self.items@[i as int].0@ == uid@
                    && self@.dom().contains(uid@) && self@[uid@] == self.items@[i as int].1,
                None => !self@.dom().contains(uid@),
            },
    {
        proof {
            use_type_invariant(self);
            lemma_pairs_map(self.items@);
        }
        let mut i: usize = 0;
        while i < self.items.len()
            invariant
                i <= self.items@.len(),
                keys_unique(self.items@),
                self@ == pairs_map(self.items@),
                forall|u: Uid| #[trigger]
                    self@.dom().contains(u) <==> exists|i: int|
                        0 <= i < self.items@.len() && (#[trigger] self.items@[i]).0@ == u,
                forall|k: int|
                    0 <= k < self.items@.len() ==> self@[(#[trigger] self.items@[k]).0@]
                        == self.items@[k].1,
                forall|j: int| 0 <= j < i ==> (#[trigger] self.items@[j]).0@ != uid@,
            decreases self.items@.len() - i,
        {
            if same_uid(&self.items[i].0, uid) {
                return Some(i);
            }
            i = i + 1;
        }
        None
    }

    pub fn get(&self, uid: &NodeUid) -> (r: Option<&V>)
        ensures
            match r {
                Some(v) => self@.dom().contains(uid@) && self@[uid@] == *v,
                None => !self@.dom().contains(uid@),
            },
    {
        match self.position(uid) {
            Some(i) => Some(&self.items[i].1),
            None => None,
        }
    }

    pub fn contains_key(&self, uid: &NodeUid) -> (r: bool)
        ensures
            r == self@.dom().contains(uid@),
    {
        match self.position(uid) {
            Some(_) => true,
            None => false,
        }
    }

    /// Take `uid` out of the map.
    pub fn remove(&mut self, uid: &NodeUid) -> (r: Option<V>)
        ensures
            final(self)@ == old(self)@.remove(uid@),
            match r {
                Some(v) => old(self)@.dom().contains(uid@) && old(self)@[uid@] == v,
                None => !old(self)@.dom().contains(uid@),
            },
    {
        match self.position(uid) {
            None => {
                assert(self@.remove(uid@) =~= self@);
                None
            },
            Some(i) => {
                proof {
                    use_type_invariant(&*self);
                }
                let ghost before = self.items@;
                let mut items: Vec<(NodeUid, V)> = Vec::new();
                std::mem::swap(&mut items, &mut self.items);
                let (_, v) = items.remove(i);
                proof {
                    let after = items@;
                    assert(after =~= before.remove(i as int));
                    assert forall|a: int, b: int| 0 <= a < b < after.len() implies (
                    #[trigger] after[a]).0@ != (#[trigger] after[b]).0@ by {
                        let x = if a < i { a } else { a + 1 };
                        let y = if b < i { b } else { b + 1 };
                        assert(after[a] == before[x]);
                        assert(after[b] == before[y]);
                    }
                    lemma_pairs_map(before);
                    lemma_pairs_map(after);
                    assert forall|u: Uid| #[trigger] pairs_map(after).dom().contains(u)
                        <==> pairs_map(before).remove(uid@).dom().contains(u) by {
                        if pairs_map(after).dom().contains(u) {
                            let a = choose|a: int|
                                0 <= a < after.len() && (#[trigger] after[a]).0@ == u;
                            let x = if a < i { a } else { a + 1 };
                            assert(before[x].0@ == u);
                            assert(before[i as int].0@ == uid@);
                        }
                        if pairs_map(before).remove(uid@).dom().contains(u) {
                            assert(pairs_map(before).dom().contains(u));
                            let x = choose|x: int|
                                0 <= x < before.len() && (#[trigger] before[x]).0@ == u;
                            let a = if x < i { x } else { x - 1 };
                            assert(after[a].0@ == u);
                        }
                    }
                    assert forall|u: Uid| #[trigger]
                        pairs_map(after).dom().contains(u) implies pairs_map(after)[u]
                        == pairs_map(before).remove(uid@)[u] by {
                        let a = choose|a: int|
                            0 <= a < after.len() && (#[trigger] after[a]).0@ == u;
                        let x = if a < i { a } else { a + 1 };
                        assert(after[a] == before[x]);
                    }
                    assert(pairs_map(after) =~= pairs_map(before).remove(uid@));
                }
                self.items = items;
                Some(v)
            },
        }
    }

    /// Map `uid` to `value`, whatever it was mapped to before.
    pub fn insert(&mut self, uid: NodeUid, value: V)
        ensures
            final(self)@ == old(self)@.insert(uid@, value),
    {
        let _ = self.remove(&uid);
        proof {
            use_type_invariant(&*self);
        }
        let ghost before = self.items@;
        let mut items: Vec<(NodeUid, V)> = Vec::new();
        std::mem::swap(&mut items, &mut self.items);
        items.push((uid, value));
        proof {
            let after = items@;
            lemma_pairs_map(before);
            assert(after.drop_last() =~= before);
            assert forall|a: int, b: int| 0 <= a < b < after.len() implies (#[trigger] after[a]).0@
                != (#[trigger] after[b]).0@ by {
                if b == after.len() - 1 {
                    assert(after[a] == before[a]);
                    assert(pairs_map(before).dom().contains(before[a].0@));
                } else {
                    assert(before[a].0@ != before[b].0@);
                }
            }
            assert(pairs_map(after) =~= old(self)@.insert(uid@, value));
        }
        self.items = items;
    }

    /// How many keys the map holds.
    pub fn len(&self) -> (r: usize)
        ensures
            self@.dom().finite(),
            r == self@.dom().len(),
            r == self.keys().len(),
    {
        proof {
            use_type_invariant(self);
            lemma_pairs_map(self.items@);
        }
        self.items.len()
    }

    /// Empty the map.
    pub fn clear(&mut self)
        ensures
            final(self)@ == Map::<Uid, V>::empty(),
    {
        self.items = Vec::new();
    }

    /// The `i`-th pair of a walk over the map.
    pub fn pair_at(&self, i: usize) -> (r: (&NodeUid, &V))
        requires
            i < self.keys().len(),
        ensures
            r.0@ == self.keys()[i as int],
            self@.dom().contains(r.0@),
            self@[r.0@] == *r.1,
    {
        proof {
            use_type_invariant(self);
            lemma_pairs_map(self.items@);
        }
        (&self.items[i].0, &self.items[i].1)
    }

    proof fn lemma_keys(&self)
        requires
            keys_unique(self.items@),
        ensures
            self.keys().no_duplicates(),
            self.keys().to_set() == self@.dom(),
            forall|u: Uid| self.keys().contains(u) <==> #[trigger] self@.dom().contains(u),
    {
        lemma_pairs_map(self.items@);
        let k = self.keys();
        assert forall|u: Uid| k.contains(u) <==> #[trigger] self@.dom().contains(u) by {
            if k.contains(u) {
                let i = choose|i: int| 0 <= i < k.len() && k[i] == u;
                assert(self.items@[i].0@ == u);
            }
            if self@.dom().contains(u) {
                let i = choose|i: int|
                    0 <= i < self.items@.len() && (#[trigger] self.items@[i]).0@ == u;
                assert(k[i] == u);
            }
        }
        assert(k.to_set() =~= self@.dom());
        assert forall|i: int, j: int|
            0 <= i < k.len() && 0 <= j < k.len() && i != j implies k[i] != k[j] by {
            if i < j {
                assert(self.items@[i].0@ != self.items@[j].0@);
            } else {
                assert(self.items@[j].0@ != self.items@[i].0@);
            }
        }
    }

    /// The number of keys; a walk over the map meets every key once.
    pub fn walk(&self) -> (n: usize)
        ensures
            n == self.keys().len(),
            self.keys().no_duplicates(),
            self.keys().to_set() == self@.dom(),
            forall|u: Uid| self.keys().contains(u) <==> #[trigger] self@.dom().contains(u),
    {
        proof {
            use_type_invariant(self);
            self.lemma_keys();
        }
        self.items.len()
    }
}

/// A set of node identities.
pub struct UidSet {
    map: UidMap<()>,
}

impl View for UidSet {
    type V = Set<Uid>;

    closed spec fn view(&self) -> Set<Uid> {
        self.map@.dom()
    }
}

impl UidSet {
    /// The members, in the order in which the set is walked.
    pub closed spec fn members(&self) -> Seq<Uid> {
        self.map.keys()
    }

    pub fn new() -> (r: Self)
        ensures
            r@ == Set::<Uid>::empty(),
    {
        let r = UidSet { map: UidMap::new() };
        assert(r@ =~= Set::<Uid>::empty());
        r
    }

    pub fn contains(&self, uid: &NodeUid) -> (r: bool)
        ensures
            r == self@.contains(uid@),
    {
        self.map.contains_key(uid)
    }

    pub fn insert(&mut self, uid: NodeUid)
        ensures
            final(self)@ == old(self)@.insert(uid@),
    {
        let ghost before = self@;
        let ghost key = uid@;
        self.map.insert(uid, ());
        assert(self@ =~= before.insert(key));
    }

    pub fn remove(&mut self, uid: &NodeUid)
        ensures
            final(self)@ == old(self)@.remove(uid@),
    {
        let ghost before = self@;
        let _ = self.map.remove(uid);
        assert(self@ =~= before.remove(uid@));
    }

    /// Learn how many members there are and that a walk meets each once.
    pub fn walk(&self) -> (n: usize)
        ensures
            n == self.members().len(),
            self.members().no_duplicates(),
            self.members().to_set() == self@,
            forall|u: Uid| self.members().contains(u) <==> #[trigger] self@.contains(u),
    {
        self.map.walk()
    }

    /// The `i`-th member of a walk.
    pub fn member_at(&self, i: usize) -> (r: &NodeUid)
        requires
            i < self.members().len(),
        ensures
            r@ == self.members()[i as int],
            self@.contains(r@),
    {
        self.map.pair_at(i).0
    }

    pub fn is_empty(&self) -> (r: bool)
        ensures
            r == (self@ =~= Set::<Uid>::empty()),
    {
        let n = self.map.walk();
        proof {
            if n > 0 {
                let u = self.map.keys()[0];
                assert(self.map.keys().contains(u));
                assert(self@.contains(u));
            } else {
                assert forall|u: Uid| !self@.contains(u) by {
                    if self@.contains(u) {
                        assert(self.map.keys().contains(u));
                    }
                }
            }
        }
        n == 0
    }
}

} // verus!

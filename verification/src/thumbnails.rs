//! What is remembered of files that have no thumbnail.
//!
//! A remote miss says that there is nothing to download; it never keeps a thumbnail
//! from being made here. A local miss says that this very revision was looked at and
//! could not be decoded. Each memory is bounded on its own.

use crate::error::Errno;
use crate::state::State;
use crate::uid::{same_uid, NodeUid, Uid};
use vstd::prelude::*;

verus! {

broadcast use vstd::std_specs::hash::group_hash_axioms;

/// How many misses a memory holds at most.
pub const MAX_THUMBNAIL_MISSES: usize = 8192;

/// The misses of one kind, each with the revision it is about.
#[derive(Debug)]
pub struct MissMap {
    items: Vec<(NodeUid, i32, i64)>,
}

/// The map that a list of misses stands for.
pub open spec fn misses_of(s: Seq<(NodeUid, i32, i64)>) -> Map<(Uid, i32), i64>
    decreases s.len(),
{
    if s.len() == 0 {
        Map::empty()
    } else {
        misses_of(s.drop_last()).insert((s.last().0@, s.last().1), s.last().2)
    }
}

/// Whether no file and size comes twice.
pub open spec fn misses_unique(s: Seq<(NodeUid, i32, i64)>) -> bool {
    forall|i: int, j: int|
        0 <= i < j < s.len() ==> ((#[trigger] s[i]).0@, s[i].1) != ((#[trigger] s[j]).0@, s[j].1)
}

proof fn lemma_misses(s: Seq<(NodeUid, i32, i64)>)
    requires
        misses_unique(s),
    ensures
        misses_of(s).dom().finite(),
        misses_of(s).dom().len() == s.len(),
        forall|k: (Uid, i32)| #[trigger]
            misses_of(s).contains_key(k) <==> exists|i: int|
                0 <= i < s.len() && ((#[trigger] s[i]).0@, s[i].1) == k,
        forall|i: int|
            0 <= i < s.len() ==> misses_of(s)[((#[trigger] s[i]).0@, s[i].1)] == s[i].2,
    decreases s.len(),
{
    if s.len() > 0 {
        let t = s.drop_last();
        assert forall|i: int, j: int| 0 <= i < j < t.len() implies ((#[trigger] t[i]).0@, t[i].1)
            != ((#[trigger] t[j]).0@, t[j].1) by {
            assert((s[i].0@, s[i].1) != (s[j].0@, s[j].1));
        }
        lemma_misses(t);
        let last = (s.last().0@, s.last().1);
        assert(!misses_of(t).contains_key(last)) by {
            if misses_of(t).contains_key(last) {
                let i = choose|i: int| 0 <= i < t.len() && ((#[trigger] t[i]).0@, t[i].1) == last;
                assert((s[i].0@, s[i].1) == (s[s.len() - 1].0@, s[s.len() - 1].1));
            }
        }
        assert forall|k: (Uid, i32)| #[trigger]
            misses_of(s).contains_key(k) <==> exists|i: int|
                0 <= i < s.len() && ((#[trigger] s[i]).0@, s[i].1) == k by {
            if misses_of(s).contains_key(k) {
                if k == last {
                    assert((s[s.len() - 1].0@, s[s.len() - 1].1) == k);
                } else {
                    assert(misses_of(t).contains_key(k));
                    let i = choose|i: int| 0 <= i < t.len() && ((#[trigger] t[i]).0@, t[i].1) == k;
                    assert((s[i].0@, s[i].1) == k);
                }
            }
            if exists|i: int| 0 <= i < s.len() && ((#[trigger] s[i]).0@, s[i].1) == k {
                let i = choose|i: int| 0 <= i < s.len() && ((#[trigger] s[i]).0@, s[i].1) == k;
                if i < s.len() - 1 {
                    assert((t[i].0@, t[i].1) == k);
                    assert(misses_of(t).contains_key(k));
                }
            }
        }
        assert forall|i: int| 0 <= i < s.len() implies misses_of(s)[(
            (#[trigger] s[i]).0@,
            s[i].1,
        )] == s[i].2 by {
            if i < s.len() - 1 {
                assert(t[i] == s[i]);
                assert((s[i].0@, s[i].1) != (s[s.len() - 1].0@, s[s.len() - 1].1));
            }
        }
    }
}

impl View for MissMap {
    type V = Map<(Uid, i32), i64>;

    closed spec fn view(&self) -> Map<(Uid, i32), i64> {
        misses_of(self.items@)
    }
}

impl MissMap {
    #[verifier::type_invariant]
    closed spec fn inv(&self) -> bool {
        misses_unique(self.items@)
    }

    pub fn new() -> (r: Self)
        ensures
            r@ == Map::<(Uid, i32), i64>::empty(),
    {
        MissMap { items: Vec::new() }
    }

    pub fn len(&self) -> (r: usize)
        ensures
            r == self@.dom().len(),
    {
        proof {
            use_type_invariant(self);
            lemma_misses(self.items@);
        }
        self.items.len()
    }

    fn position(&self, uid: &NodeUid, kind: i32) -> (r: Option<usize>)
        ensures
            match r {
                Some(i) => i < self.items@.len() && self.items@[i as int].0@ == uid@
                    && self.items@[i as int].1 == kind && self@.contains_key((uid@, kind))
                    && self@[(uid@, kind)] == self.items@[i as int].2,
                None => !self@.contains_key((uid@, kind)),
            },
    {
        proof {
            use_type_invariant(self);
            lemma_misses(self.items@);
        }
        let ghost all = self.items@;
        let ghost m = misses_of(all);
        let mut i: usize = 0;
        while i < self.items.len()
            invariant
                i <= self.items@.len(),
                all == self.items@,
                m == misses_of(all),
                m == self@,
                forall|k: (Uid, i32)| #[trigger]
                    m.contains_key(k) <==> exists|i: int|
                        0 <= i < all.len() && ((#[trigger] all[i]).0@, all[i].1) == k,
                forall|i: int|
                    0 <= i < all.len() ==> m[((#[trigger] all[i]).0@, all[i].1)] == all[i].2,
                forall|k: int|
                    0 <= k < i ==> ((#[trigger] all[k]).0@, all[k].1) != (uid@, kind),
            decreases self.items@.len() - i,
        {
            if self.items[i].1 == kind && same_uid(&self.items[i].0, uid) {
                assert((all[i as int].0@, all[i as int].1) == (uid@, kind));
                return Some(i);
            }
            i = i + 1;
        }
        None
    }

    /// Whether the miss of this very revision is remembered.
    pub fn is_at(&self, uid: &NodeUid, kind: i32, tag: i64) -> (r: bool)
        ensures
            r == (self@.contains_key((uid@, kind)) && self@[(uid@, kind)] == tag),
    {
        match self.position(uid, kind) {
            Some(i) => self.items[i].2 == tag,
            None => false,
        }
    }

    /// Forget a miss.
    pub fn forget(&mut self, uid: &NodeUid, kind: i32)
        ensures
            final(self)@ == old(self)@.remove((uid@, kind)),
    {
        match self.position(uid, kind) {
            None => {
                assert(self@ =~= self@.remove((uid@, kind)));
            },
            Some(i) => {
                proof {
                    use_type_invariant(&*self);
                    lemma_misses(self.items@);
                }
                let ghost before = self.items@;
                let mut items: Vec<(NodeUid, i32, i64)> = Vec::new();
                std::mem::swap(&mut items, &mut self.items);
                let _ = items.remove(i);
                proof {
                    let after = items@;
                    let key = (uid@, kind);
                    assert(after =~= before.remove(i as int));
                    assert forall|a: int, b: int| 0 <= a < b < after.len() implies (
                        (#[trigger] after[a]).0@,
                        after[a].1,
                    ) != ((#[trigger] after[b]).0@, after[b].1) by {
                        let x = if a < i {
                            a
                        } else {
                            a + 1
                        };
                        let y = if b < i {
                            b
                        } else {
                            b + 1
                        };
                        assert(after[a] == before[x] && after[b] == before[y]);
                    }
                    lemma_misses(after);
                    assert forall|k: (Uid, i32)| #[trigger]
                        misses_of(after).contains_key(k) <==> misses_of(before).remove(
                            key,
                        ).contains_key(k) by {
                        if misses_of(after).contains_key(k) {
                            let a = choose|a: int|
                                0 <= a < after.len() && ((#[trigger] after[a]).0@, after[a].1) == k;
                            let x = if a < i {
                                a
                            } else {
                                a + 1
                            };
                            assert(before[x] == after[a]);
                            if x < i {
                                assert((before[x].0@, before[x].1) != (
                                    before[i as int].0@,
                                    before[i as int].1,
                                ));
                            } else {
                                assert((before[i as int].0@, before[i as int].1) != (
                                    before[x].0@,
                                    before[x].1,
                                ));
                            }
                        }
                        if misses_of(before).contains_key(k) && k != key {
                            let x = choose|x: int|
                                0 <= x < before.len() && ((#[trigger] before[x]).0@, before[x].1)
                                    == k;
                            let a = if x < i {
                                x
                            } else {
                                x - 1
                            };
                            assert(after[a] == before[x]);
                        }
                    }
                    assert forall|k: (Uid, i32)| #[trigger]
                        misses_of(after).contains_key(k) implies misses_of(after)[k] == misses_of(
                        before,
                    )[k] by {
                        let a = choose|a: int|
                            0 <= a < after.len() && ((#[trigger] after[a]).0@, after[a].1) == k;
                        let x = if a < i {
                            a
                        } else {
                            a + 1
                        };
                        assert(after[a] == before[x]);
                    }
                    assert(misses_of(after) =~= misses_of(before).remove(key));
                }
                self.items = items;
            },
        }
    }

    /// Remember a miss. A memory that is full is emptied first, unless it holds the
    /// file already.
    pub fn remember(&mut self, uid: NodeUid, kind: i32, tag: i64)
        ensures
            final(self)@ == remembered(old(self)@, (uid@, kind), tag),
    {
        let known = self.position(&uid, kind).is_some();
        if self.len() >= MAX_THUMBNAIL_MISSES && !known {
            self.items = Vec::new();
        }
        let ghost base = self@;
        self.forget(&uid, kind);
        proof {
            use_type_invariant(&*self);
            lemma_misses(self.items@);
        }
        let ghost before = self.items@;
        let mut items: Vec<(NodeUid, i32, i64)> = Vec::new();
        std::mem::swap(&mut items, &mut self.items);
        items.push((uid, kind, tag));
        proof {
            let after = items@;
            let key = (uid@, kind);
            assert(after.drop_last() =~= before);
            assert forall|a: int, b: int| 0 <= a < b < after.len() implies (
                (#[trigger] after[a]).0@,
                after[a].1,
            ) != ((#[trigger] after[b]).0@, after[b].1) by {
                assert(after[a] == before[a]);
                if b == after.len() - 1 {
                    assert(misses_of(before).contains_key((before[a].0@, before[a].1)));
                } else {
                    assert(after[b] == before[b]);
                }
            }
            assert(misses_of(after) =~= base.insert(key, tag));
        }
        self.items = items;
    }
}

/// A memory after a miss was put into it.
pub open spec fn remembered(m: Map<(Uid, i32), i64>, key: (Uid, i32), tag: i64) -> Map<
    (Uid, i32),
    i64,
> {
    if m.dom().len() >= MAX_THUMBNAIL_MISSES && !m.contains_key(key) {
        Map::<(Uid, i32), i64>::empty().insert(key, tag)
    } else {
        m.insert(key, tag)
    }
}

/// A memory never holds more than its bound, and always what was put into it last.
pub proof fn law_miss_memory_is_bounded(m: Map<(Uid, i32), i64>, key: (Uid, i32), tag: i64)
    requires
        m.dom().finite(),
        m.dom().len() <= MAX_THUMBNAIL_MISSES,
    ensures
        remembered(m, key, tag).dom().len() <= MAX_THUMBNAIL_MISSES,
        remembered(m, key, tag).contains_key(key),
        remembered(m, key, tag)[key] == tag,
{
    let e = Map::<(Uid, i32), i64>::empty();
    assert(e.insert(key, tag).dom() =~= Set::empty().insert(key));
    assert(m.insert(key, tag).dom() =~= m.dom().insert(key));
}

/// The two memories.
#[derive(Debug)]
pub struct ThumbnailMissCaches {
    pub remote: MissMap,
    pub local: MissMap,
}

impl Default for ThumbnailMissCaches {
    fn default() -> (r: Self)
        ensures
            r.remote@ == Map::<(Uid, i32), i64>::empty(),
            r.local@ == Map::<(Uid, i32), i64>::empty(),
    {
        ThumbnailMissCaches { remote: MissMap::new(), local: MissMap::new() }
    }
}

impl ThumbnailMissCaches {
    pub fn remote_contains(&self, key: &(NodeUid, i32), tag: i64) -> (r: bool)
        ensures
            r == (self.remote@.contains_key((key.0@, key.1)) && self.remote@[(key.0@, key.1)]
                == tag),
    {
        self.remote.is_at(&key.0, key.1, tag)
    }

    pub fn local_contains(&self, key: &(NodeUid, i32), tag: i64) -> (r: bool)
        ensures
            r == (self.local@.contains_key((key.0@, key.1)) && self.local@[(key.0@, key.1)] == tag),
    {
        self.local.is_at(&key.0, key.1, tag)
    }

    pub fn remember_remote(&mut self, key: (NodeUid, i32), tag: i64)
        ensures
            final(self).remote@ == remembered(old(self).remote@, (key.0@, key.1), tag),
            final(self).local == old(self).local,
    {
        self.remote.remember(key.0, key.1, tag);
    }

    pub fn remember_local(&mut self, key: (NodeUid, i32), tag: i64)
        ensures
            final(self).local@ == remembered(old(self).local@, (key.0@, key.1), tag),
            final(self).remote == old(self).remote,
    {
        self.local.remember(key.0, key.1, tag);
    }

    pub fn forget_local(&mut self, key: &(NodeUid, i32))
        ensures
            final(self).local@ == old(self).local@.remove((key.0@, key.1)),
            final(self).remote == old(self).remote,
    {
        self.local.forget(&key.0, key.1);
    }
}

/// The file that a thumbnail is asked for, and its revision. A folder has none.
pub fn thumbnail_target(state: &State, ino: u64) -> (r: Result<Option<(NodeUid, i64)>, Errno>)
    ensures
        r == (if !state@.entries.contains_key(ino) {
            Err::<Option<(NodeUid, i64)>, Errno>(Errno::Noent)
        } else if state@.entries[ino].node.kind is Folder {
            Ok(None)
        } else {
            Ok(
                Some((state@.entries[ino].uid, state@.entries[ino].node.modification_time)),
            )
        }),
{
    match state.entries.get(&ino) {
        None => Err(Errno::Noent),
        Some(e) => {
            if e.node.is_folder() {
                Ok(None)
            } else {
                Ok(Some((e.uid.clone(), e.node.modification_time)))
            }
        },
    }
}

/// Where a thumbnail comes from.
#[derive(Debug, Clone, Copy, PartialEq, Eq, Structural)]
pub enum ThumbnailPlan {
    /// It is cached.
    Cached,
    /// The remote is known to have none.
    Missing,
    Download,
}

/// Where a thumbnail comes from.
pub fn thumbnail(
    cached: bool,
    misses: &ThumbnailMissCaches,
    key: &(NodeUid, i32),
    tag: i64,
) -> (r: ThumbnailPlan)
    ensures
        r == (if cached {
            ThumbnailPlan::Cached
        } else if misses.remote@.contains_key((key.0@, key.1)) && misses.remote@[(key.0@, key.1)]
            == tag {
            ThumbnailPlan::Missing
        } else {
            ThumbnailPlan::Download
        }),
{
    if cached {
        ThumbnailPlan::Cached
    } else if misses.remote_contains(key, tag) {
        ThumbnailPlan::Missing
    } else {
        ThumbnailPlan::Download
    }
}

/// What a download came to.
#[derive(Debug, Clone, Copy, PartialEq, Eq, Structural)]
pub enum ThumbnailAnswer {
    /// Cache the picture, and hand it out.
    Store,
    /// There is none.
    Nothing,
    Fail(Errno),
}

/// Take what a download came to: `found` is whether there was a picture. That there
/// is none is remembered.
pub fn thumbnail_downloaded(
    misses: &mut ThumbnailMissCaches,
    key: (NodeUid, i32),
    tag: i64,
    found: Result<bool, ()>,
) -> (r: ThumbnailAnswer)
    ensures
        r == (match found {
            Err(_) => ThumbnailAnswer::Fail(Errno::Io),
            Ok(true) => ThumbnailAnswer::Store,
            Ok(false) => ThumbnailAnswer::Nothing,
        }),
        final(misses).local == old(misses).local,
        final(misses).remote@ == (if found == Ok::<bool, ()>(false) {
            remembered(old(misses).remote@, (key.0@, key.1), tag)
        } else {
            old(misses).remote@
        }),
{
    match found {
        Err(_) => ThumbnailAnswer::Fail(Errno::Io),
        Ok(true) => ThumbnailAnswer::Store,
        Ok(false) => {
            misses.remember_remote(key, tag);
            ThumbnailAnswer::Nothing
        },
    }
}

/// What is remembered is there afterwards, and everything else stays unless there was no more
/// room: then all of it goes.
pub proof fn law_misses_are_remembered(
    m: Map<(Uid, i32), i64>,
    key: (Uid, i32),
    tag: i64,
    other: (Uid, i32),
)
    requires
        other != key,
    ensures
        remembered(m, key, tag).contains_key(key) && remembered(m, key, tag)[key] == tag,
        remembered(m, key, tag).contains_key(other) ==> m.contains_key(other) && remembered(
            m,
            key,
            tag,
        )[other] == m[other],
        m.contains_key(other) && (m.dom().len() < MAX_THUMBNAIL_MISSES || m.contains_key(key))
            ==> remembered(m, key, tag).contains_key(other),
{
}

} // verus!

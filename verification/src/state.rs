//! One mount's inode space: the entries the kernel knows, the identities they
//! stand for, and the listings that are complete.
//!
//! A listing that is absent is unknown, not empty: the next `readdir` rebuilds
//! it. [`Tree`] is the inode space as the contracts speak of it.

use crate::access::Access;
use crate::error::Errno;
use crate::node::Node;
use crate::uid::{NodeUid, Uid};
use crate::uidmap::UidMap;
use std::collections::HashMap;
use vstd::prelude::*;

verus! {

/// The root inode of every mount.
pub const ROOT_INO: u64 = 1;

/// Parent inode of a node whose folder is not resident. No folder carries it,
/// so such a node is listed by nobody.
pub const ORPHAN_INO: u64 = 0;

/// One inode.
pub struct Entry {
    pub uid: NodeUid,
    /// The folder's inode; the root is its own parent.
    pub parent: u64,
    pub node: Node,
    pub access: Access,
    pub lookup_count: u64,
    pub open_count: u64,
    /// Removed from the namespace but still open.
    pub unlinked: bool,
}

/// One mount's inode space.
pub struct State {
    pub entries: HashMap<u64, Entry>,
    pub by_uid: UidMap<u64>,
    pub children: HashMap<u64, Vec<u64>>,
    /// What the account may do below each root that is shared with it.
    pub share_access: UidMap<Access>,
    pub next_ino: u64,
}

/// What a [`State`] stands for.
#[verifier::ext_equal]
pub struct Tree {
    pub entries: Map<u64, Entry>,
    pub by_uid: Map<Uid, u64>,
    pub listings: Map<u64, Seq<u64>>,
    pub share_access: Map<Uid, Access>,
    pub next_ino: u64,
}

impl View for State {
    type V = Tree;

    open spec fn view(&self) -> Tree {
        Tree {
            entries: self.entries@,
            by_uid: self.by_uid@,
            listings: self.children@.map_values(|v: Vec<u64>| v@),
            share_access: self.share_access@,
            next_ino: self.next_ino,
        }
    }
}

impl Clone for Entry {
    fn clone(&self) -> (r: Self)
        ensures
            r == *self,
    {
        Entry {
            uid: self.uid.clone(),
            parent: self.parent,
            node: self.node.clone(),
            access: self.access,
            lookup_count: self.lookup_count,
            open_count: self.open_count,
            unlinked: self.unlinked,
        }
    }
}

/// `s` without any `x`.
pub open spec fn without(s: Seq<u64>, x: u64) -> Seq<u64>
    decreases s.len(),
{
    if s.len() == 0 {
        seq![]
    } else if s.last() == x {
        without(s.drop_last(), x)
    } else {
        without(s.drop_last(), x).push(s.last())
    }
}

pub proof fn lemma_without(s: Seq<u64>, x: u64)
    ensures
        forall|y: u64| #[trigger] without(s, x).contains(y) <==> s.contains(y) && y != x,
        !s.contains(x) ==> without(s, x) == s,
        s.no_duplicates() ==> without(s, x).no_duplicates(),
    decreases s.len(),
{
    if s.len() > 0 {
        let t = s.drop_last();
        lemma_without(t, x);
        assert forall|y: u64| #[trigger] without(s, x).contains(y) <==> s.contains(y) && y
            != x by {
            if without(s, x).contains(y) && s.last() != x {
                let i = choose|i: int| 0 <= i < without(s, x).len() && without(s, x)[i] == y;
                if i < without(t, x).len() {
                    assert(without(t, x)[i] == y);
                    assert(without(t, x).contains(y));
                } else {
                    assert(s[s.len() - 1] == y);
                }
            }
            assert(without(t, x).contains(y) <==> t.contains(y) && y != x);
            if t.contains(y) {
                let i = choose|i: int| 0 <= i < t.len() && t[i] == y;
                assert(s[i] == y);
            }
            if s.contains(y) && y != x {
                let i = choose|i: int| 0 <= i < s.len() && s[i] == y;
                if i < s.len() - 1 {
                    assert(t[i] == y);
                    assert(t.contains(y));
                    if s.last() != x {
                        assert(without(t, x).contains(y));
                        let j = choose|j: int| 0 <= j < without(t, x).len() && without(t, x)[j] == y;
                        assert(without(s, x)[j] == y);
                    }
                } else {
                    assert(without(s, x).last() == y);
                }
            }
        }
        if !s.contains(x) {
            assert(!t.contains(x)) by {
                if t.contains(x) {
                    let i = choose|i: int| 0 <= i < t.len() && t[i] == x;
                    assert(s[i] == x);
                }
            }
            assert(s.last() != x) by {
                assert(s.contains(s.last()));
            }
            assert(without(s, x) =~= s);
        }
        if s.no_duplicates() {
            assert(t.no_duplicates());
            if s.last() != x {
                let w = without(t, x);
                assert forall|i: int, j: int|
                    0 <= i < w.len() + 1 && 0 <= j < w.len() + 1 && i != j implies w.push(
                    s.last(),
                )[i] != w.push(s.last())[j] by {
                    assert(!w.contains(s.last())) by {
                        if w.contains(s.last()) {
                            assert(t.contains(s.last()));
                            let k = choose|k: int| 0 <= k < t.len() && t[k] == s.last();
                            assert(s[k] == s[s.len() - 1]);
                        }
                    }
                    if i == w.len() {
                        assert(w.contains(w[j]));
                    }
                    if j == w.len() {
                        assert(w.contains(w[i]));
                    }
                }
            }
        }
    }
}

impl Tree {
    /// A uid leads to an entry of its own, no two uids share an inode, and the inodes
    /// handed out lie below the next one. An entry need not be led to: a node that was
    /// listed before its placeholder took its identity stays behind under its own inode.
    pub open spec fn wf(self) -> bool {
        &&& self.next_ino >= 2
        &&& forall|ino: u64| #[trigger] self.entries.contains_key(ino) ==> ino < self.next_ino
        &&& forall|u: Uid| #[trigger]
            self.by_uid.contains_key(u) ==> ROOT_INO <= self.by_uid[u] < self.next_ino && (
            self.entries.contains_key(self.by_uid[u]) ==> self.entries[self.by_uid[u]].uid@ == u)
        &&& forall|u: Uid, v: Uid| #[trigger]
            self.by_uid.contains_key(u) && #[trigger] self.by_uid.contains_key(v)
                && self.by_uid[u] == self.by_uid[v] ==> u == v
        &&& forall|ino: u64| #[trigger] self.listings.contains_key(ino) ==> ino < self.next_ino
    }

    /// The listings after `ino` was dropped from the listing of `parent`.
    pub open spec fn dropped_from(self, parent: u64, ino: u64) -> Map<u64, Seq<u64>> {
        if self.listings.contains_key(parent) {
            self.listings.insert(parent, without(self.listings[parent], ino))
        } else {
            self.listings
        }
    }

    /// The inode that `uid` has, or the one it would get.
    pub open spec fn ino_for(self, uid: Uid) -> u64 {
        if self.by_uid.contains_key(uid) {
            self.by_uid[uid]
        } else {
            self.next_ino
        }
    }

    /// What the account may do with `uid` below `parent`: its own share's
    /// access, else its folder's.
    pub open spec fn access_below(self, uid: Uid, parent: u64) -> Access {
        if self.share_access.contains_key(uid) {
            self.share_access[uid]
        } else if self.entries.contains_key(parent) {
            self.entries[parent].access
        } else {
            Access::Unknown
        }
    }

    /// The entry that interning `node` below `parent` leaves.
    pub open spec fn interned_entry(self, parent: u64, node: Node) -> Entry {
        let ino = self.ino_for(node.uid@);
        if self.by_uid.contains_key(node.uid@) && self.entries.contains_key(ino) {
            Entry {
                parent,
                node,
                access: self.access_below(node.uid@, parent),
                unlinked: false,
                ..self.entries[ino]
            }
        } else {
            Entry {
                uid: node.uid,
                parent,
                node,
                access: self.access_below(node.uid@, parent),
                lookup_count: 1,
                open_count: 0,
                unlinked: false,
            }
        }
    }

    /// The tree after `node` was placed below `parent`. A uid that is known
    /// keeps its inode.
    pub open spec fn interned(self, parent: u64, node: Node) -> Tree {
        let ino = self.ino_for(node.uid@);
        Tree {
            entries: self.entries.insert(ino, self.interned_entry(parent, node)),
            by_uid: self.by_uid.insert(node.uid@, ino),
            next_ino: if self.by_uid.contains_key(node.uid@) {
                self.next_ino
            } else {
                (self.next_ino + 1) as u64
            },
            ..self
        }
    }

    /// The tree and the inodes after `nodes` were placed below `parent` in
    /// order.
    pub open spec fn interned_all(self, parent: u64, nodes: Seq<Node>) -> (Tree, Seq<u64>)
        decreases nodes.len(),
    {
        if nodes.len() == 0 {
            (self, seq![])
        } else {
            let (t, inos) = self.interned_all(parent, nodes.drop_last());
            (
                t.interned(parent, nodes.last()),
                inos.push(t.ino_for(nodes.last().uid@)),
            )
        }
    }

    /// The tree after everything resident about `uid` was dropped.
    pub open spec fn forgotten(self, uid: Uid) -> Tree {
        if self.by_uid.contains_key(uid) {
            let ino = self.by_uid[uid];
            Tree {
                entries: self.entries.remove(ino),
                by_uid: self.by_uid.remove(uid),
                listings: (if self.entries.contains_key(ino) {
                    self.dropped_from(self.entries[ino].parent, ino)
                } else {
                    self.listings
                }).remove(ino),
                ..self
            }
        } else {
            self
        }
    }

    /// The dentry that `uid` has: its folder and its name.
    pub open spec fn dentry(self, uid: Uid) -> Option<(u64, Seq<char>)> {
        if self.by_uid.contains_key(uid) && self.entries.contains_key(self.by_uid[uid]) {
            let e = self.entries[self.by_uid[uid]];
            Some((e.parent, e.node.name@))
        } else {
            None
        }
    }

    /// The tree after `uid` left the namespace. An open inode stays, marked as
    /// unlinked; any other is dropped.
    pub open spec fn unlinked_from(self, uid: Uid) -> Tree {
        if self.by_uid.contains_key(uid) && self.entries.contains_key(self.by_uid[uid])
            && self.entries[self.by_uid[uid]].open_count > 0 {
            let ino = self.by_uid[uid];
            let e = self.entries[ino];
            Tree {
                entries: self.entries.insert(ino, Entry { unlinked: true, ..e }),
                listings: self.dropped_from(e.parent, ino),
                ..self
            }
        } else {
            self.forgotten(uid)
        }
    }

    /// Whether `ino` is `root` or sits below it, looking at most `fuel` folders
    /// up.
    pub open spec fn below(self, ino: u64, root: u64, fuel: nat) -> bool
        decreases fuel,
    {
        ||| ino == root
        ||| fuel > 0 && self.entries.contains_key(ino) && self.below(
            self.entries[ino].parent,
            root,
            (fuel - 1) as nat,
        )
    }

    /// Whether `ino` is resident in the subtree of `root`.
    pub open spec fn in_subtree(self, ino: u64, root: u64) -> bool {
        self.entries.contains_key(ino) && self.below(ino, root, self.next_ino as nat)
    }

    /// Whether a downgrade below `root` takes something away from `ino`.
    pub open spec fn loses_access(self, ino: u64, root: u64) -> bool {
        self.in_subtree(ino, root) && self.entries[ino].access.can_write()
    }

    /// The inodes below `upto` that lose something when the subtree of `uid` is
    /// made read-only, in ascending order.
    pub open spec fn losers(self, uid: Uid, upto: nat) -> Seq<u64>
        decreases upto,
    {
        if upto == 0 {
            seq![]
        } else {
            let ino = (upto - 1) as u64;
            let rest = self.losers(uid, (upto - 1) as nat);
            if self.by_uid.contains_key(uid) && self.loses_access(ino, self.by_uid[uid]) {
                rest.push(ino)
            } else {
                rest
            }
        }
    }

    /// The entry `ino` after the subtree of `uid` was made read-only.
    pub open spec fn downgraded_entry(self, ino: u64, uid: Uid) -> Entry {
        if self.by_uid.contains_key(uid) && self.loses_access(ino, self.by_uid[uid]) {
            Entry { access: Access::Viewer, ..self.entries[ino] }
        } else {
            self.entries[ino]
        }
    }

    /// The tree after the subtree of `uid` was made read-only.
    pub open spec fn downgraded(self, uid: Uid) -> Tree {
        Tree {
            entries: Map::new(
                |ino: u64| self.entries.contains_key(ino),
                |ino: u64| self.downgraded_entry(ino, uid),
            ),
            share_access: self.share_access.insert(uid, Access::Viewer),
            ..self
        }
    }

    /// The tree after every root that is known to be shared, and all below it,
    /// was made read-only.
    pub open spec fn downgraded_all(self) -> Tree {
        Tree {
            entries: Map::new(
                |ino: u64| self.entries.contains_key(ino),
                |ino: u64|
                    if self.below_a_share(ino) && self.entries[ino].access.can_write() {
                        Entry { access: Access::Viewer, ..self.entries[ino] }
                    } else {
                        self.entries[ino]
                    },
            ),
            share_access: self.share_access.map_values(|a: Access| Access::Viewer),
            ..self
        }
    }

    /// The entry `ino` after the subtree of `uid` was withdrawn.
    pub open spec fn withdrawn_entry(self, ino: u64, uid: Uid) -> Entry {
        if self.by_uid.contains_key(uid) && self.in_subtree(ino, self.by_uid[uid]) {
            Entry { node: Node { trashed: true, ..self.entries[ino].node }, ..self.entries[ino] }
        } else {
            self.entries[ino]
        }
    }

    /// The tree after the subtree of `uid` was withdrawn: nothing in it is
    /// offered any more, and its dentry is gone.
    pub open spec fn withdrawn(self, uid: Uid) -> Tree {
        Tree {
            entries: Map::new(
                |ino: u64| self.entries.contains_key(ino),
                |ino: u64| self.withdrawn_entry(ino, uid),
            ),
            listings: self.dentry_hidden(uid).listings,
            ..self
        }
    }

    /// The tree after the dentry of `uid` disappeared. The inode stays.
    pub open spec fn dentry_hidden(self, uid: Uid) -> Tree {
        if self.by_uid.contains_key(uid) && self.entries.contains_key(self.by_uid[uid]) {
            Tree {
                listings: self.dropped_from(
                    self.entries[self.by_uid[uid]].parent,
                    self.by_uid[uid],
                ),
                ..self
            }
        } else {
            self
        }
    }

    /// Whether `ino` can be reached from the root: nothing on the way up was
    /// unlinked or trashed, and no present listing omits it. An absent listing
    /// is unknown and hides nothing.
    pub open spec fn reachable(self, ino: u64, fuel: nat) -> bool
        decreases fuel,
    {
        &&& self.entries.contains_key(ino)
        &&& !self.entries[ino].unlinked
        &&& !self.entries[ino].node.trashed
        &&& (ino == ROOT_INO || {
            let parent = self.entries[ino].parent;
            &&& fuel > 0
            &&& (self.listings.contains_key(parent) ==> self.listings[parent].contains(ino))
            &&& self.reachable(parent, (fuel - 1) as nat)
        })
    }

    /// Whether this mount owns `uid` and exposes it: it is on the volume of the
    /// mounted root and reachable from it.
    pub open spec fn owns_visible(self, uid: Uid) -> bool {
        &&& self.entries.contains_key(ROOT_INO)
        &&& self.entries[ROOT_INO].uid@.volume == uid.volume
        &&& self.by_uid.contains_key(uid)
        &&& self.reachable(self.by_uid[uid], self.next_ino as nat)
    }
}

fn vec_without(v: &Vec<u64>, x: u64) -> (r: Vec<u64>)
    ensures
        r@ == without(v@, x),
{
    let mut r: Vec<u64> = Vec::new();
    let mut i: usize = 0;
    assert(v@.take(0) =~= Seq::<u64>::empty());
    while i < v.len()
        invariant
            i <= v@.len(),
            r@ == without(v@.take(i as int), x),
        decreases v@.len() - i,
    {
        assert(v@.take(i + 1).drop_last() =~= v@.take(i as int));
        if v[i] != x {
            r.push(v[i]);
        }
        i = i + 1;
    }
    assert(v@.take(i as int) =~= v@);
    r
}

impl State {
    /// A mount rooted at `root`.
    pub fn new(root: Node, share_access: UidMap<Access>) -> (r: State)
        ensures
            r@.entries == Map::<u64, Entry>::empty().insert(
                ROOT_INO,
                Entry {
                    uid: root.uid,
                    parent: ROOT_INO,
                    node: root,
                    access: Access::Owner,
                    lookup_count: 1,
                    open_count: 0,
                    unlinked: false,
                },
            ),
            r@.by_uid == Map::<Uid, u64>::empty().insert(root.uid@, ROOT_INO),
            r@.listings == Map::<u64, Seq<u64>>::empty(),
            r@.share_access == share_access@,
            r@.next_ino == 2,
            r@.wf(),
    {
        let mut entries: HashMap<u64, Entry> = HashMap::new();
        let mut by_uid: UidMap<u64> = UidMap::new();
        by_uid.insert(root.uid.clone(), ROOT_INO);
        entries.insert(
            ROOT_INO,
            Entry {
                uid: root.uid.clone(),
                parent: ROOT_INO,
                node: root,
                access: Access::Owner,
                lookup_count: 1,
                open_count: 0,
                unlinked: false,
            },
        );
        let r = State { entries, by_uid, children: HashMap::new(), share_access, next_ino: 2 };
        assert(r@.listings =~= Map::<u64, Seq<u64>>::empty());
        r
    }

    /// The inode that stands for `uid`, if it has one.
    pub fn ino_of(&self, uid: &NodeUid) -> (r: Option<u64>)
        ensures
            match r {
                Some(ino) => self@.by_uid.contains_key(uid@) && self@.by_uid[uid@] == ino,
                None => !self@.by_uid.contains_key(uid@),
            },
    {
        match self.by_uid.get(uid) {
            Some(ino) => Some(*ino),
            None => None,
        }
    }

    /// Whether the listing of `ino` is resident.
    pub fn has_children(&self, ino: u64) -> (r: bool)
        ensures
            r == self@.listings.contains_key(ino),
    {
        self.children.contains_key(&ino)
    }

    /// Publish the complete listing of `ino`.
    pub fn set_listing(&mut self, ino: u64, inos: Vec<u64>)
        ensures
            final(self)@ == (Tree { listings: old(self)@.listings.insert(ino, inos@), ..old(
                self,
            )@ }),
            old(self)@.wf() && ino < old(self).next_ino ==> final(self)@.wf(),
    {
        let ghost before = self@.listings;
        self.children.insert(ino, inos);
        assert(self@.listings =~= before.insert(ino, inos@));
    }

    /// Forget the listing of `ino`, so that the next access rebuilds it.
    pub fn invalidate_listing(&mut self, ino: u64)
        ensures
            final(self)@ == (Tree { listings: old(self)@.listings.remove(ino), ..old(self)@ }),
            old(self)@.wf() ==> final(self)@.wf(),
    {
        let ghost before = self@.listings;
        self.children.remove(&ino);
        assert(self@.listings =~= before.remove(ino));
    }

    pub(crate) fn drop_child(&mut self, parent: u64, ino: u64)
        ensures
            final(self)@ == (Tree { listings: old(self)@.dropped_from(parent, ino), ..old(self)@ }),
            old(self)@.wf() ==> final(self)@.wf(),
    {
        let ghost before = self@;
        match self.children.remove(&parent) {
            Some(kids) => {
                let rest = vec_without(&kids, ino);
                self.children.insert(parent, rest);
                assert(self@.listings =~= before.dropped_from(parent, ino));
            },
            None => {
                assert(self@.listings =~= before.dropped_from(parent, ino));
            },
        }
    }

    fn access_under(&self, uid: &NodeUid, parent: u64) -> (r: Access)
        ensures
            r == self@.access_below(uid@, parent),
    {
        match self.share_access.get(uid) {
            Some(a) => *a,
            None => match self.entries.get(&parent) {
                Some(e) => e.access,
                None => Access::Unknown,
            },
        }
    }

    /// Place `node` below `parent`, keeping the inode of a uid that is known.
    pub fn intern_mem(&mut self, parent: u64, node: Node) -> (ino: u64)
        requires
            old(self).next_ino < u64::MAX,
        ensures
            final(self)@ == old(self)@.interned(parent, node),
            ino == old(self)@.ino_for(node.uid@),
            old(self)@.wf() ==> final(self)@.wf(),
    {
        let ghost before = self@;
        let access = self.access_under(&node.uid, parent);
        let known = self.ino_of(&node.uid);
        let ino: u64 = match known {
            Some(ino) => ino,
            None => {
                let ino = self.next_ino;
                self.next_ino = self.next_ino + 1;
                ino
            },
        };
        self.by_uid.insert(node.uid.clone(), ino);
        let resident = if known.is_some() {
            self.entries.remove(&ino)
        } else {
            None
        };
        let entry = match resident {
            Some(e) => Entry {
                uid: e.uid,
                parent,
                node,
                access,
                lookup_count: e.lookup_count,
                open_count: e.open_count,
                unlinked: false,
            },
            None => Entry {
                uid: node.uid.clone(),
                parent,
                node,
                access,
                lookup_count: 1,
                open_count: 0,
                unlinked: false,
            },
        };
        self.entries.insert(ino, entry);
        proof {
            assert(self@.entries =~= before.interned(parent, node).entries);
            assert(self@.by_uid =~= before.interned(parent, node).by_uid);
            assert(self@ =~= before.interned(parent, node));
            if before.wf() {
                law_intern_keeps_wf(before, parent, node);
            }
        }
        ino
    }

    /// Place every node below `parent`, in order; the inodes come in the same
    /// order.
    pub fn intern_batch(&mut self, parent: u64, nodes: Vec<Node>) -> (inos: Vec<u64>)
        requires
            old(self).next_ino + nodes@.len() <= u64::MAX,
        ensures
            final(self)@ == old(self)@.interned_all(parent, nodes@).0,
            inos@ == old(self)@.interned_all(parent, nodes@).1,
            final(self).next_ino <= old(self).next_ino + nodes@.len(),
            old(self)@.wf() ==> final(self)@.wf(),
    {
        let ghost before = self@;
        let mut inos: Vec<u64> = Vec::new();
        let mut i: usize = 0;
        assert(nodes@.take(0) =~= Seq::<Node>::empty());
        while i < nodes.len()
            invariant
                i <= nodes@.len(),
                before.next_ino + nodes@.len() <= u64::MAX,
                self@ == before.interned_all(parent, nodes@.take(i as int)).0,
                inos@ == before.interned_all(parent, nodes@.take(i as int)).1,
                self.next_ino <= before.next_ino + i,
                before.wf() ==> self@.wf(),
            decreases nodes@.len() - i,
        {
            assert(nodes@.take(i + 1).drop_last() =~= nodes@.take(i as int));
            let ino = self.intern_mem(parent, nodes[i].clone());
            inos.push(ino);
            i = i + 1;
        }
        assert(nodes@.take(i as int) =~= nodes@);
        inos
    }

    /// Drop everything resident about `uid`. Returns the dentry it had.
    pub fn forget(&mut self, uid: &NodeUid) -> (r: Option<(u64, String)>)
        ensures
            final(self)@ == old(self)@.forgotten(uid@),
            match r {
                Some((parent, name)) => old(self)@.dentry(uid@) == Some((parent, name@)),
                None => old(self)@.dentry(uid@) is None,
            },
            old(self)@.wf() ==> final(self)@.wf(),
    {
        let ghost before = self@;
        let ino: u64 = match self.by_uid.remove(uid) {
            None => {
                assert(self@ =~= before);
                return None;
            },
            Some(ino) => ino,
        };
        let taken = self.entries.remove(&ino);
        match taken {
            Some(e) => {
                self.drop_child(e.parent, ino);
                self.invalidate_listing(ino);
                assert(self@ =~= before.forgotten(uid@));
                Some((e.parent, e.node.name))
            },
            None => {
                self.invalidate_listing(ino);
                assert(self@ =~= before.forgotten(uid@));
                None
            },
        }
    }

    /// Take `uid` out of the namespace. An inode that is still open stays until
    /// it is released.
    pub fn unlink_mem(&mut self, uid: &NodeUid)
        ensures
            final(self)@ == old(self)@.unlinked_from(uid@),
            old(self)@.wf() ==> final(self)@.wf(),
    {
        let ghost before = self@;
        let open = match self.ino_of(uid) {
            Some(ino) => match self.entries.get(&ino) {
                Some(e) => if e.open_count > 0 {
                    Some(ino)
                } else {
                    None
                },
                None => None,
            },
            None => None,
        };
        match open {
            Some(ino) => {
                match self.entries.remove(&ino) {
                    Some(mut e) => {
                        let parent = e.parent;
                        e.unlinked = true;
                        self.entries.insert(ino, e);
                        self.drop_child(parent, ino);
                    },
                    None => {},
                }
                assert(self@ =~= before.unlinked_from(uid@));
            },
            None => {
                let _ = self.forget(uid);
            },
        }
    }

    fn is_below(&self, ino: u64, root: u64) -> (r: bool)
        ensures
            r == self@.in_subtree(ino, root),
    {
        if !self.entries.contains_key(&ino) {
            return false;
        }
        let mut at: u64 = ino;
        let mut fuel: u64 = self.next_ino;
        while fuel > 0 && at != root
            invariant
                self@.entries.contains_key(ino),
                self@.below(ino, root, self.next_ino as nat) == self@.below(at, root, fuel as nat),
            decreases fuel,
        {
            match self.entries.get(&at) {
                Some(e) => {
                    at = e.parent;
                },
                None => {
                    return false;
                },
            }
            fuel = fuel - 1;
        }
        at == root
    }

    /// Make everything resident below `uid` read-only. Returns the inodes that
    /// lost something, in ascending order.
    pub fn downgrade_shared_subtree(&mut self, uid: &NodeUid) -> (changed: Vec<u64>)
        requires
            old(self)@.wf(),
        ensures
            final(self)@ == old(self)@.downgraded(uid@),
            changed@ == old(self)@.losers(uid@, old(self).next_ino as nat),
            final(self)@.wf(),
    {
        let ghost before = self@;
        let mut changed: Vec<u64> = Vec::new();
        self.share_access.insert(uid.clone(), Access::Viewer);
        let root: u64 = match self.ino_of(uid) {
            None => {
                proof {
                    lemma_losers(before, uid@, before.next_ino as nat);
                    assert(before.losers(uid@, before.next_ino as nat) =~= changed@) by {
                        let l = before.losers(uid@, before.next_ino as nat);
                        if l.len() > 0 {
                            assert(l.contains(l[0]));
                        }
                    }
                    assert(self@.entries =~= before.downgraded(uid@).entries);
                    assert(self@ =~= before.downgraded(uid@));
                }
                return changed;
            },
            Some(root) => root,
        };
        let mut ino: u64 = 0;
        let end: u64 = self.next_ino;
        while ino < end
            invariant
                ino <= end,
                end == self.next_ino == before.next_ino,
                self@.by_uid == before.by_uid,
                self@.listings == before.listings,
                self@.next_ino == before.next_ino,
                before.by_uid.contains_key(uid@),
                root == before.by_uid[uid@],
                changed@ == before.losers(uid@, ino as nat),
                forall|k: u64| #[trigger]
                    self@.entries.contains_key(k) <==> before.entries.contains_key(k),
                forall|k: u64| #[trigger]
                    before.entries.contains_key(k) ==> self@.entries[k] == (if k < ino {
                        before.downgraded_entry(k, uid@)
                    } else {
                        before.entries[k]
                    }),
                self@.share_access == before.share_access.insert(uid@, Access::Viewer),
            decreases end - ino,
        {
            let hit = self.is_below(ino, root);
            proof {
                lemma_below_same(before, self@, ino, root, before.next_ino as nat);
            }
            let writable = match self.entries.get(&ino) {
                Some(e) => e.access.writable(),
                None => false,
            };
            assert((hit && writable) == before.loses_access(ino, root));
            if hit && writable {
                match self.entries.remove(&ino) {
                    Some(mut e) => {
                        e.access = Access::Viewer;
                        self.entries.insert(ino, e);
                    },
                    None => {},
                }
                changed.push(ino);
            }
            ino = ino + 1;
        }
        proof {
            assert(self@.entries =~= before.downgraded(uid@).entries);
            assert(self@ =~= before.downgraded(uid@));
        }
        changed
    }

    /// Make every root that is known to be shared, and all below it, read-only.
    /// Returns the inodes that lost something, each once.
    pub fn downgrade_known_shared_access(&mut self) -> (changed: Vec<u64>)
        requires
            old(self)@.wf(),
        ensures
            final(self)@.wf(),
            final(self)@ == old(self)@.downgraded_all(),
            forall|ino: u64|
                #![trigger changed@.contains(ino)]
                #![trigger old(self)@.entries.contains_key(ino)]
                changed@.contains(ino) <==> old(self)@.entries.contains_key(ino)
                    && old(self)@.below_a_share(ino) && old(self)@.entries[ino].access.can_write(),
            changed@.no_duplicates(),
    {
        let ghost before = self@;
        let mut roots: Vec<NodeUid> = Vec::new();
        let n = self.share_access.walk();
        let mut i: usize = 0;
        while i < n
            invariant
                i <= n,
                n == self.share_access.keys().len(),
                self@ == before,
                roots@.len() == i,
                forall|j: int| 0 <= j < i ==> (#[trigger] roots@[j])@ == self.share_access.keys()[j],
            decreases n - i,
        {
            roots.push(self.share_access.pair_at(i).0.clone());
            i = i + 1;
        }
        let ghost keys = self.share_access.keys();
        let mut changed: Vec<u64> = Vec::new();
        let mut k: usize = 0;
        while k < roots.len()
            invariant
                k <= roots@.len(),
                roots@.len() == keys.len(),
                before.wf(),
                forall|j: int| 0 <= j < keys.len() ==> (#[trigger] roots@[j])@ == keys[j],
                forall|u: Uid| keys.contains(u) <==> #[trigger] before.share_access.dom().contains(u),
                self@.wf(),
                self@.by_uid == before.by_uid,
                self@.listings == before.listings,
                self@.next_ino == before.next_ino,
                self@.share_access.dom() == before.share_access.dom(),
                forall|j: int|
                    0 <= j < k ==> self@.share_access[#[trigger] keys[j]] == Access::Viewer,
                self@.entries.dom() == before.entries.dom(),
                forall|ino: u64| #[trigger]
                    before.entries.contains_key(ino) ==> self@.entries[ino] == (if before.below_one(
                        ino,
                        keys.take(k as int),
                    ) && before.entries[ino].access.can_write() {
                        Entry { access: Access::Viewer, ..before.entries[ino] }
                    } else {
                        before.entries[ino]
                    }),
                forall|ino: u64|
                    #![trigger changed@.contains(ino)]
                    #![trigger before.entries.contains_key(ino)]
                    changed@.contains(ino) <==> before.entries.contains_key(ino)
                        && before.below_one(ino, keys.take(k as int))
                        && before.entries[ino].access.can_write(),
                changed@.no_duplicates(),
            decreases roots@.len() - k,
        {
            let ghost mid = self@;
            let ghost had = changed@;
            let ghost root = roots@[k as int]@;
            let mut more = self.downgrade_shared_subtree(&roots[k]);
            proof {
                lemma_losers(mid, root, mid.next_ino as nat);
            }
            let ghost added = more@;
            changed.append(&mut more);
            proof {
                assert(root == keys[k as int]);
                assert(before.share_access.dom().contains(root)) by {
                    assert(keys.contains(root));
                }
                assert(self@.share_access.dom() =~= before.share_access.dom());
                assert(self@.entries.dom() =~= before.entries.dom());
                assert forall|ino: u64| before.entries.contains_key(ino) implies #[trigger] mid.below(
                    ino,
                    before.by_uid[root],
                    before.next_ino as nat,
                ) == before.below(ino, before.by_uid[root], before.next_ino as nat) by {
                    lemma_below_same(
                        before,
                        mid,
                        ino,
                        before.by_uid[root],
                        before.next_ino as nat,
                    );
                }
                assert forall|x: int, y: int|
                    0 <= x < had.len() && 0 <= y < added.len() implies had[x] != added[y] by {
                    assert(had.contains(had[x]));
                    assert(added.contains(added[y]));
                    assert(before.entries.contains_key(had[x]));
                }
                assert(changed@.no_duplicates());
                let part = keys.take(k as int);
                let next = keys.take(k + 1);
                assert(next =~= part.push(root));
                assert forall|ino: u64| #[trigger]
                    before.entries.contains_key(ino) implies before.below_one(ino, next) == (
                before.below_one(ino, part) || (before.by_uid.contains_key(root)
                    && before.in_subtree(ino, before.by_uid[root]))) by {
                    lemma_below_one_push(before, ino, part, root);
                }
                assert forall|ino: u64| #[trigger]
                    before.entries.contains_key(ino) implies self@.entries[ino] == (
                if before.below_one(ino, next) && before.entries[ino].access.can_write() {
                    Entry { access: Access::Viewer, ..before.entries[ino] }
                } else {
                    before.entries[ino]
                }) by {
                    assert(mid.entries.contains_key(ino));
                    assert(mid.by_uid.contains_key(root) == before.by_uid.contains_key(root));
                    if before.by_uid.contains_key(root) {
                        assert(mid.in_subtree(ino, before.by_uid[root]) == before.in_subtree(
                            ino,
                            before.by_uid[root],
                        ));
                    }
                }
                assert forall|ino: u64|
                    #![trigger changed@.contains(ino)]
                    #![trigger before.entries.contains_key(ino)]
                    changed@.contains(ino) <==> before.entries.contains_key(ino)
                        && before.below_one(ino, next)
                        && before.entries[ino].access.can_write() by {
                    assert(changed@ == had + added);
                    if had.contains(ino) {
                        let x = choose|x: int| 0 <= x < had.len() && had[x] == ino;
                        assert(changed@[x] == ino);
                    }
                    if added.contains(ino) {
                        let x = choose|x: int| 0 <= x < added.len() && added[x] == ino;
                        assert(changed@[had.len() + x] == ino);
                    }
                    if changed@.contains(ino) {
                        let x = choose|x: int| 0 <= x < changed@.len() && changed@[x] == ino;
                        if x < had.len() {
                            assert(had[x] == ino);
                        } else {
                            assert(added[x - had.len()] == ino);
                        }
                    }
                    assert(added.contains(ino) <==> mid.entries.contains_key(ino)
                        && mid.by_uid.contains_key(root) && mid.loses_access(
                        ino,
                        mid.by_uid[root],
                    ));
                    if before.entries.contains_key(ino) && before.by_uid.contains_key(root) {
                        assert(mid.in_subtree(ino, before.by_uid[root]) == before.in_subtree(
                            ino,
                            before.by_uid[root],
                        ));
                    }
                }
            }
            k = k + 1;
        }
        proof {
            assert(keys.take(k as int) =~= keys);
            assert forall|ino: u64| #[trigger] before.entries.contains_key(ino) implies before.below_one(
                ino,
                keys,
            ) == before.below_a_share(ino) by {
                if before.below_one(ino, keys) {
                    let j = choose|j: int|
                        0 <= j < keys.len() && before.by_uid.contains_key(#[trigger] keys[j])
                            && before.in_subtree(ino, before.by_uid[keys[j]]);
                    assert(keys.contains(keys[j]));
                    assert(before.share_access.contains_key(keys[j]));
                }
                if before.below_a_share(ino) {
                    let u = choose|u: Uid| #[trigger]
                        before.share_access.contains_key(u) && before.by_uid.contains_key(u)
                            && before.in_subtree(ino, before.by_uid[u]);
                    assert(before.share_access.dom().contains(u));
                    assert(keys.contains(u));
                    let j = choose|j: int| 0 <= j < keys.len() && keys[j] == u;
                    assert(before.by_uid.contains_key(keys[j]));
                }
            }
            assert forall|u: Uid| #[trigger]
                self@.share_access.contains_key(u) implies self@.share_access[u]
                == Access::Viewer by {
                assert(before.share_access.dom().contains(u));
                assert(keys.contains(u));
                let j = choose|j: int| 0 <= j < keys.len() && keys[j] == u;
                assert(self@.share_access[keys[j]] == Access::Viewer);
            }
            assert(self@.entries =~= before.downgraded_all().entries);
            assert(self@.share_access =~= before.downgraded_all().share_access);
            assert(self@ =~= before.downgraded_all());
        }
        changed
    }

    /// Drop the dentry of an incoming share that was revoked. Its inode, and
    /// whatever is open below it, stays resident but can no longer be reached.
    pub fn hide_shared_root(&mut self, uid: &NodeUid)
        ensures
            final(self)@ == old(self)@.dentry_hidden(uid@),
            old(self)@.wf() ==> final(self)@.wf(),
    {
        let ghost before = self@;
        match self.ino_of(uid) {
            Some(ino) => {
                let parent = match self.entries.get(&ino) {
                    Some(e) => Some(e.parent),
                    None => None,
                };
                match parent {
                    Some(p) => {
                        self.drop_child(p, ino);
                    },
                    None => {},
                }
            },
            None => {},
        }
        assert(self@ =~= before.dentry_hidden(uid@));
    }

    /// Withdraw a foreign subtree: nothing resident in it is offered any more,
    /// and its dentry is gone. The inodes stay for whoever holds them open.
    pub fn hide_foreign_subtree(&mut self, uid: &NodeUid)
        requires
            old(self)@.wf(),
        ensures
            final(self)@ == old(self)@.withdrawn(uid@),
            final(self)@.wf(),
    {
        let ghost before = self@;
        self.hide_shared_root(uid);
        let ghost hidden = self@;
        let root: u64 = match self.ino_of(uid) {
            None => {
                assert(self@.entries =~= before.withdrawn(uid@).entries);
                assert(self@ =~= before.withdrawn(uid@));
                return ;
            },
            Some(root) => root,
        };
        let mut ino: u64 = 0;
        let end: u64 = self.next_ino;
        while ino < end
            invariant
                ino <= end,
                end == self.next_ino == before.next_ino,
                hidden == before.dentry_hidden(uid@),
                hidden.wf(),
                self@.by_uid == before.by_uid,
                self@.listings == hidden.listings,
                self@.next_ino == before.next_ino,
                self@.share_access == before.share_access,
                before.by_uid.contains_key(uid@),
                root == before.by_uid[uid@],
                forall|k: u64| #[trigger]
                    self@.entries.contains_key(k) <==> before.entries.contains_key(k),
                forall|k: u64| #[trigger]
                    before.entries.contains_key(k) ==> self@.entries[k] == (if k < ino {
                        before.withdrawn_entry(k, uid@)
                    } else {
                        before.entries[k]
                    }),
            decreases end - ino,
        {
            let hit = self.is_below(ino, root);
            proof {
                lemma_below_same(before, self@, ino, root, before.next_ino as nat);
            }
            if hit {
                match self.entries.remove(&ino) {
                    Some(mut e) => {
                        e.node.trashed = true;
                        self.entries.insert(ino, e);
                    },
                    None => {},
                }
            }
            ino = ino + 1;
        }
        proof {
            assert(self@.entries =~= before.withdrawn(uid@).entries);
            assert(self@ =~= before.withdrawn(uid@));
        }
    }

    /// What the account may do with `uid`, where it is resident.
    pub fn access_by_uid(&self, uid: &NodeUid) -> (r: Option<Access>)
        ensures
            r == (if self@.by_uid.contains_key(uid@) && self@.entries.contains_key(
                self@.by_uid[uid@],
            ) {
                Some(self@.entries[self@.by_uid[uid@]].access)
            } else {
                None::<Access>
            }),
    {
        match self.ino_of(uid) {
            Some(ino) => match self.entries.get(&ino) {
                Some(e) => Some(e.access),
                None => None,
            },
            None => None,
        }
    }

    /// Whether `ino` may be changed.
    pub fn require_writable(&self, ino: u64) -> (r: Result<(), Errno>)
        ensures
            r == (if !self@.entries.contains_key(ino) {
                Err::<(), Errno>(Errno::Noent)
            } else if self@.entries[ino].access.can_write() {
                Ok(())
            } else {
                Err(Errno::Acces)
            }),
    {
        match self.entries.get(&ino) {
            None => Err(Errno::Noent),
            Some(e) => if e.access.writable() {
                Ok(())
            } else {
                Err(Errno::Acces)
            },
        }
    }

    fn reaches_root(&self, ino: u64) -> (r: bool)
        ensures
            r == self@.reachable(ino, self.next_ino as nat),
    {
        let mut at: u64 = ino;
        let mut fuel: u64 = self.next_ino;
        loop
            invariant
                self@.reachable(ino, self.next_ino as nat) == self@.reachable(at, fuel as nat),
            decreases fuel,
        {
            let parent: u64 = match self.entries.get(&at) {
                None => {
                    return false;
                },
                Some(e) => {
                    if e.unlinked || e.node.trashed {
                        return false;
                    }
                    e.parent
                },
            };
            if at == ROOT_INO {
                return true;
            }
            if fuel == 0 {
                return false;
            }
            match self.children.get(&parent) {
                Some(kids) => {
                    assert(self@.listings.contains_key(parent));
                    if !contains_ino(kids, at) {
                        return false;
                    }
                },
                None => {},
            }
            at = parent;
            fuel = fuel - 1;
        }
    }

    /// Whether this mount owns `uid` and exposes it.
    ///
    /// Being resident is not enough: open inodes stay after they were unlinked,
    /// revoked shares stay after their dentry is gone, and incoming shares are
    /// on other volumes.
    pub fn owns_visible_uid(&self, uid: &NodeUid) -> (r: bool)
        ensures
            r == self@.owns_visible(uid@),
    {
        match self.entries.get(&ROOT_INO) {
            None => {
                return false;
            },
            Some(root) => {
                if root.uid.volume_id != uid.volume_id {
                    return false;
                }
            },
        }
        match self.ino_of(uid) {
            Some(ino) => self.reaches_root(ino),
            None => false,
        }
    }
}

impl Tree {
    /// Whether `ino` sits below one of `roots`.
    pub open spec fn below_one(self, ino: u64, roots: Seq<Uid>) -> bool {
        exists|j: int|
            0 <= j < roots.len() && self.by_uid.contains_key(#[trigger] roots[j])
                && self.in_subtree(ino, self.by_uid[roots[j]])
    }

    /// Whether `ino` sits below a root that is known to be shared.
    pub open spec fn below_a_share(self, ino: u64) -> bool {
        exists|u: Uid| #[trigger]
            self.share_access.contains_key(u) && self.by_uid.contains_key(u) && self.in_subtree(
                ino,
                self.by_uid[u],
            )
    }
}

/// Who loses something, without the order: each of them once.
pub proof fn lemma_losers(t: Tree, uid: Uid, upto: nat)
    requires
        upto <= t.next_ino,
    ensures
        t.losers(uid, upto).no_duplicates(),
        forall|ino: u64| #[trigger]
            t.losers(uid, upto).contains(ino) <==> ino < upto && t.by_uid.contains_key(uid)
                && t.loses_access(ino, t.by_uid[uid]),
    decreases upto,
{
    if upto > 0 {
        lemma_losers(t, uid, (upto - 1) as nat);
        let rest = t.losers(uid, (upto - 1) as nat);
        let all = t.losers(uid, upto);
        let last = (upto - 1) as u64;
        assert(all.no_duplicates()) by {
            assert forall|i: int| 0 <= i < rest.len() implies #[trigger] rest[i] != last by {
                assert(rest.contains(rest[i]));
            }
        }
        assert forall|ino: u64| #[trigger]
            all.contains(ino) <==> ino < upto && t.by_uid.contains_key(uid) && t.loses_access(
                ino,
                t.by_uid[uid],
            ) by {
            if rest.contains(ino) {
                let i = choose|i: int| 0 <= i < rest.len() && rest[i] == ino;
                assert(all[i] == ino);
            }
            if all.contains(ino) {
                let i = choose|i: int| 0 <= i < all.len() && all[i] == ino;
                if i < rest.len() {
                    assert(rest[i] == ino);
                    assert(rest.contains(ino));
                }
            }
            if ino == last && t.by_uid.contains_key(uid) && t.loses_access(ino, t.by_uid[uid]) {
                assert(all.last() == ino);
            }
        }
    }
}

proof fn lemma_below_one_push(t: Tree, ino: u64, roots: Seq<Uid>, root: Uid)
    ensures
        t.below_one(ino, roots.push(root)) == (t.below_one(ino, roots) || (t.by_uid.contains_key(
            root,
        ) && t.in_subtree(ino, t.by_uid[root]))),
{
    let all = roots.push(root);
    if t.below_one(ino, all) {
        let j = choose|j: int|
            0 <= j < all.len() && t.by_uid.contains_key(#[trigger] all[j]) && t.in_subtree(
                ino,
                t.by_uid[all[j]],
            );
        if j < roots.len() {
            assert(roots[j] == all[j]);
            assert(t.by_uid.contains_key(roots[j]));
        }
    }
    if t.below_one(ino, roots) {
        let j = choose|j: int|
            0 <= j < roots.len() && t.by_uid.contains_key(#[trigger] roots[j]) && t.in_subtree(
                ino,
                t.by_uid[roots[j]],
            );
        assert(all[j] == roots[j]);
        assert(t.by_uid.contains_key(all[j]));
    }
    if t.by_uid.contains_key(root) && t.in_subtree(ino, t.by_uid[root]) {
        assert(all[roots.len() as int] == root);
        assert(t.by_uid.contains_key(all[roots.len() as int]));
    }
}

/// Whether `kids` holds `ino`.
pub fn contains_ino(kids: &Vec<u64>, ino: u64) -> (r: bool)
    ensures
        r == kids@.contains(ino),
{
    let mut i: usize = 0;
    while i < kids.len()
        invariant
            i <= kids@.len(),
            forall|j: int| 0 <= j < i ==> kids@[j] != ino,
        decreases kids@.len() - i,
    {
        if kids[i] == ino {
            assert(kids@.contains(ino));
            return true;
        }
        i = i + 1;
    }
    false
}

/// What sits below what depends only on the parents.
proof fn lemma_below_same(a: Tree, b: Tree, ino: u64, root: u64, fuel: nat)
    requires
        forall|k: u64| #[trigger] b.entries.contains_key(k) <==> a.entries.contains_key(k),
        forall|k: u64| #[trigger]
            a.entries.contains_key(k) ==> b.entries[k].parent == a.entries[k].parent,
    ensures
        a.below(ino, root, fuel) == b.below(ino, root, fuel),
    decreases fuel,
{
    if fuel > 0 && a.entries.contains_key(ino) {
        lemma_below_same(a, b, a.entries[ino].parent, root, (fuel - 1) as nat);
    }
}

/// Interning keeps the inode space consistent, and a uid that is known keeps
/// its inode.
pub proof fn law_intern_keeps_wf(t: Tree, parent: u64, node: Node)
    requires
        t.wf(),
        t.next_ino < u64::MAX,
    ensures
        t.interned(parent, node).wf(),
        t.by_uid.contains_key(node.uid@) ==> t.interned(parent, node).by_uid[node.uid@]
            == t.by_uid[node.uid@],
        forall|u: Uid| #[trigger]
            t.by_uid.contains_key(u) ==> t.interned(parent, node).by_uid.contains_key(u)
                && t.interned(parent, node).by_uid[u] == t.by_uid[u],
{
    let s = t.interned(parent, node);
    let ino = t.ino_for(node.uid@);
    assert forall|u: Uid| #[trigger] s.by_uid.contains_key(u) implies ROOT_INO <= s.by_uid[u]
        < s.next_ino && (s.entries.contains_key(s.by_uid[u]) ==> s.entries[s.by_uid[u]].uid@
        == u) by {
        if u != node.uid@ {
            assert(t.by_uid.contains_key(u));
        }
    }
    assert forall|u: Uid, v: Uid| #[trigger]
        s.by_uid.contains_key(u) && #[trigger] s.by_uid.contains_key(v) && s.by_uid[u]
            == s.by_uid[v] implies u == v by {
        if u != node.uid@ {
            assert(t.by_uid.contains_key(u));
        }
        if v != node.uid@ {
            assert(t.by_uid.contains_key(v));
        }
    }
}

/// Interning the same node twice in the same place changes nothing more.
pub proof fn law_intern_is_idempotent(t: Tree, parent: u64, node: Node)
    requires
        t.wf(),
        t.next_ino < u64::MAX,
        t.ino_for(node.uid@) != parent,
    ensures
        t.interned(parent, node).interned(parent, node) == t.interned(parent, node),
{
    let s = t.interned(parent, node);
    law_intern_keeps_wf(t, parent, node);
    assert(s.by_uid.contains_key(node.uid@));
    assert(s.interned(parent, node).entries =~= s.entries);
    assert(s.interned(parent, node).by_uid =~= s.by_uid);
    assert(s.interned(parent, node) =~= s);
}

/// A node that was forgotten is not owned by the mount any more, and no listing
/// of its folder holds it.
pub proof fn law_forgotten_is_gone(t: Tree, uid: Uid)
    requires
        t.wf(),
    ensures
        !t.forgotten(uid).owns_visible(uid),
        t.forgotten(uid).wf(),
        t.by_uid.contains_key(uid) && t.entries.contains_key(t.by_uid[uid]) ==> {
            let parent = t.entries[t.by_uid[uid]].parent;
            t.forgotten(uid).listings.contains_key(parent) ==> !t.forgotten(
                uid,
            ).listings[parent].contains(t.by_uid[uid])
        },
{
    if t.by_uid.contains_key(uid) && t.entries.contains_key(t.by_uid[uid]) {
        let parent = t.entries[t.by_uid[uid]].parent;
        if t.listings.contains_key(parent) {
            lemma_without(t.listings[parent], t.by_uid[uid]);
        }
    }
}

/// A node that was unlinked while open is not owned by the mount any more.
pub proof fn law_unlinked_is_not_addressable(t: Tree, uid: Uid)
    requires
        t.wf(),
    ensures
        !t.unlinked_from(uid).owns_visible(uid),
{
    law_forgotten_is_gone(t, uid);
}

/// A dentry that disappeared hides the node wherever its folder's listing is
/// known, unless it is the root itself.
pub proof fn law_hidden_dentry_is_not_addressable(t: Tree, uid: Uid)
    requires
        t.wf(),
        t.by_uid.contains_key(uid),
        t.entries.contains_key(t.by_uid[uid]),
        t.by_uid[uid] != ROOT_INO,
        t.listings.contains_key(t.entries[t.by_uid[uid]].parent),
    ensures
        !t.dentry_hidden(uid).owns_visible(uid),
{
    lemma_without(t.listings[t.entries[t.by_uid[uid]].parent], t.by_uid[uid]);
}

/// Retire the last reference to an unlinked inode. Returns the identity that
/// was retired, or `None` while the inode is still in use or in the namespace.
pub fn release_unlinked_entry(state: &mut State, ino: u64) -> (r: Option<NodeUid>)
    ensures
        final(state)@ == released(old(state)@, ino),
        old(state)@.wf() ==> final(state)@.wf(),
        match r {
            Some(uid) => retires(old(state)@, ino) && uid == old(state)@.entries[ino].uid,
            None => !retires(old(state)@, ino),
        },
{
    let ghost before = state@;
    let (uid, gone) = match state.entries.remove(&ino) {
        None => {
            assert(state@.entries =~= before.entries);
            assert(state@ =~= released(before, ino));
            return None;
        },
        Some(mut e) => {
            if e.open_count > 0 {
                e.open_count = e.open_count - 1;
            }
            let gone = e.open_count == 0 && e.unlinked;
            let uid = e.uid.clone();
            state.entries.insert(ino, e);
            (uid, gone)
        },
    };
    assert(state@ =~= (Tree {
        entries: before.entries.insert(ino, released_entry(before.entries[ino])),
        ..before
    }));
    if !gone {
        return None;
    }
    let _ = state.forget(&uid);
    Some(uid)
}

/// An entry with one open reference less.
pub open spec fn released_entry(e: Entry) -> Entry {
    Entry {
        open_count: if e.open_count > 0 {
            (e.open_count - 1) as u64
        } else {
            0
        },
        ..e
    }
}

/// Whether releasing `ino` retires it.
pub open spec fn retires(t: Tree, ino: u64) -> bool {
    t.entries.contains_key(ino) && t.entries[ino].open_count <= 1 && t.entries[ino].unlinked
}

/// The tree after one open reference to `ino` was released.
pub open spec fn released(t: Tree, ino: u64) -> Tree {
    if t.entries.contains_key(ino) {
        let s = Tree { entries: t.entries.insert(ino, released_entry(t.entries[ino])), ..t };
        if retires(t, ino) {
            s.forgotten(t.entries[ino].uid@)
        } else {
            s
        }
    } else {
        t
    }
}

/// Whether an unlinked inode's persisted row may be dropped: not while a queued
/// trash still needs it, and not when the queue could not be read.
pub fn release_can_discard_unlinked(queued_trash: Result<bool, ()>) -> (r: bool)
    ensures
        r == (queued_trash == Ok::<bool, ()>(false)),
{
    match queued_trash {
        Ok(retain) => !retain,
        Err(()) => false,
    }
}

/// A node that is interned is found by its uid, as it was given and where it was put, and
/// in the namespace. It may be written as its own share says, and else as its folder may.
/// Who has it open keeps it open, and nothing else changes.
pub proof fn law_interned_is_placed(t: Tree, parent: u64, node: Node)
    requires
        t.wf(),
        t.next_ino < u64::MAX,
    ensures
        ({
            let s = t.interned(parent, node);
            let ino = s.by_uid[node.uid@];
            let e = s.entries[ino];
            &&& s.by_uid.contains_key(node.uid@) && s.entries.contains_key(ino)
            &&& e.node == node && e.parent == parent && !e.unlinked && e.uid@ == node.uid@
            &&& t.share_access.contains_key(node.uid@) ==> e.access == t.share_access[node.uid@]
            &&& !t.share_access.contains_key(node.uid@) && t.entries.contains_key(parent)
                ==> e.access == t.entries[parent].access
            &&& !t.share_access.contains_key(node.uid@) && !t.entries.contains_key(parent)
                ==> !e.access.can_write()
            &&& t.entries.contains_key(ino) ==> t.by_uid.contains_key(node.uid@) && e.open_count
                == t.entries[ino].open_count && e.lookup_count == t.entries[ino].lookup_count
            &&& !t.entries.contains_key(ino) ==> e.open_count == 0 && e.lookup_count == 1
            &&& forall|i: u64|
                i != ino ==> (#[trigger] s.entries.contains_key(i) <==> t.entries.contains_key(i))
                    && (t.entries.contains_key(i) ==> s.entries[i] == t.entries[i])
            &&& forall|u: Uid|
                u != node.uid@ ==> (#[trigger] s.by_uid.contains_key(u) <==> t.by_uid.contains_key(
                    u,
                )) && (t.by_uid.contains_key(u) ==> s.by_uid[u] == t.by_uid[u])
            &&& s.listings == t.listings && s.share_access == t.share_access
        }),
{
}

/// Forgetting a node takes that node and nothing else: it is not found by its uid, its
/// inode and its listing are gone, and of all other listings only the one of its folder
/// loses something, which is that node alone.
pub proof fn law_forgetting_takes_one_node(t: Tree, uid: Uid)
    requires
        t.wf(),
        t.by_uid.contains_key(uid),
    ensures
        ({
            let s = t.forgotten(uid);
            let ino = t.by_uid[uid];
            &&& !s.by_uid.contains_key(uid) && !s.entries.contains_key(ino)
                && !s.listings.contains_key(ino)
            &&& forall|i: u64|
                i != ino ==> (#[trigger] s.entries.contains_key(i) <==> t.entries.contains_key(i))
                    && (t.entries.contains_key(i) ==> s.entries[i] == t.entries[i])
            &&& forall|u: Uid|
                u != uid ==> (#[trigger] s.by_uid.contains_key(u) <==> t.by_uid.contains_key(u))
                    && (t.by_uid.contains_key(u) ==> s.by_uid[u] == t.by_uid[u])
            &&& forall|d: u64|
                d != ino ==> (#[trigger] s.listings.contains_key(d) <==> t.listings.contains_key(
                    d,
                ))
            &&& forall|d: u64, k: u64|
                d != ino && k != ino && #[trigger] t.listings.contains_key(d) ==> (s.listings[d].contains(
                    k,
                ) <==> #[trigger] t.listings[d].contains(k))
            &&& forall|d: u64|
                d != ino && #[trigger] t.listings.contains_key(d) && (!t.entries.contains_key(ino)
                    || t.entries[ino].parent != d) ==> s.listings[d] == t.listings[d]
            &&& s.share_access == t.share_access && s.next_ino == t.next_ino
        }),
{
    let ino = t.by_uid[uid];
    if t.entries.contains_key(ino) {
        let parent = t.entries[ino].parent;
        if t.listings.contains_key(parent) {
            lemma_without(t.listings[parent], ino);
        }
    }
}

/// Unlinking a node that is open keeps its inode, so that it can be read to the end, and
/// takes it out of its folder. One that is not open is forgotten.
pub proof fn law_unlinking_keeps_what_is_open(t: Tree, uid: Uid)
    requires
        t.wf(),
        t.by_uid.contains_key(uid),
        t.entries.contains_key(t.by_uid[uid]),
    ensures
        ({
            let s = t.unlinked_from(uid);
            let ino = t.by_uid[uid];
            let e = t.entries[ino];
            &&& e.open_count > 0 ==> s.entries.contains_key(ino) && s.entries[ino].unlinked
                && s.entries[ino].node == e.node && s.entries[ino].open_count == e.open_count
                && s.by_uid.contains_key(uid) && s.by_uid[uid] == ino
            &&& e.open_count == 0 ==> !s.entries.contains_key(ino) && !s.by_uid.contains_key(uid)
            &&& s.listings.contains_key(e.parent) ==> !s.listings[e.parent].contains(ino)
            &&& forall|i: u64|
                i != ino && #[trigger] t.entries.contains_key(i) ==> s.entries.contains_key(i)
                    && s.entries[i] == t.entries[i]
            &&& forall|d: u64, k: u64|
                d != ino && k != ino && #[trigger] t.listings.contains_key(d)
                    && #[trigger] t.listings[d].contains(k) ==> s.listings.contains_key(d)
                    && s.listings[d].contains(k)
        }),
{
    let e = t.entries[t.by_uid[uid]];
    if t.listings.contains_key(e.parent) {
        lemma_without(t.listings[e.parent], t.by_uid[uid]);
    }
    law_forgetting_takes_one_node(t, uid);
}

/// A way up from `ino` to `root`: from each entry to its folder.
pub open spec fn leads_up(t: Tree, way: Seq<u64>, ino: u64, root: u64) -> bool {
    &&& way.len() > 0
    &&& way[0] == ino
    &&& way.last() == root
    &&& forall|i: int|
        0 <= i < way.len() - 1 ==> t.entries.contains_key(#[trigger] way[i])
            && t.entries[way[i]].parent == way[i + 1]
}

proof fn lemma_way_is_below(t: Tree, way: Seq<u64>, ino: u64, root: u64, fuel: nat)
    requires
        leads_up(t, way, ino, root),
        way.len() <= fuel + 1,
    ensures
        t.below(ino, root, fuel),
    decreases way.len(),
{
    if way.len() > 1 {
        let rest = way.skip(1);
        assert(t.entries.contains_key(way[0]) && t.entries[way[0]].parent == way[1]);
        assert(rest.last() == root);
        assert forall|i: int| 0 <= i < rest.len() - 1 implies t.entries.contains_key(
            #[trigger] rest[i],
        ) && t.entries[rest[i]].parent == rest[i + 1] by {
            assert(rest[i] == way[i + 1]);
            assert(rest[i + 1] == way[i + 2]);
        }
        lemma_way_is_below(t, rest, way[1], root, (fuel - 1) as nat);
    }
}

proof fn lemma_below_has_a_way(t: Tree, ino: u64, root: u64, fuel: nat) -> (way: Seq<u64>)
    requires
        t.below(ino, root, fuel),
    ensures
        leads_up(t, way, ino, root),
    decreases fuel,
{
    if ino == root {
        seq![ino]
    } else {
        let rest = lemma_below_has_a_way(t, t.entries[ino].parent, root, (fuel - 1) as nat);
        let way = seq![ino] + rest;
        assert(way.last() == rest.last());
        assert forall|i: int| 0 <= i < way.len() - 1 implies t.entries.contains_key(
            #[trigger] way[i],
        ) && t.entries[way[i]].parent == way[i + 1] by {
            if i > 0 {
                assert(way[i] == rest[i - 1]);
                assert(way[i + 1] == rest[i]);
            } else {
                assert(way[1] == rest[0]);
            }
        }
        way
    }
}

/// Making a share read-only takes the right to write from its root and from everything
/// below it, and from nothing else; and nothing but the right changes.
pub proof fn law_downgrade_reaches_what_is_below(t: Tree, uid: Uid, ino: u64)
    requires
        t.entries.contains_key(ino),
    ensures
        ({
            let s = t.downgraded(uid);
            let e = t.entries[ino];
            &&& s.entries.contains_key(ino)
            &&& s.entries[ino] == (Entry { access: s.entries[ino].access, ..e })
            &&& s.entries[ino].access == e.access || s.entries[ino].access is Viewer
            &&& t.by_uid.contains_key(uid) ==> forall|way: Seq<u64>| #[trigger]
                leads_up(t, way, ino, t.by_uid[uid]) && way.len() <= t.next_ino
                    ==> !s.entries[ino].access.can_write()
            &&& s.entries[ino].access != e.access ==> t.by_uid.contains_key(uid) && exists|
                way: Seq<u64>,
            | #[trigger]
                leads_up(t, way, ino, t.by_uid[uid])
            &&& s.share_access[uid] is Viewer
            &&& s.listings == t.listings && s.by_uid == t.by_uid
        }),
{
    if t.by_uid.contains_key(uid) {
        let root = t.by_uid[uid];
        assert forall|way: Seq<u64>| #[trigger]
            leads_up(t, way, ino, root) && way.len() <= t.next_ino implies !t.downgraded(
            uid,
        ).entries[ino].access.can_write() by {
            lemma_way_is_below(t, way, ino, root, t.next_ino as nat);
        }
        if t.loses_access(ino, root) {
            let way = lemma_below_has_a_way(t, ino, root, t.next_ino as nat);
            assert(leads_up(t, way, ino, root));
        }
    }
}

/// Once nothing that is shared can be trusted, nothing on the way below a share may be
/// written, and what is below none keeps its right.
pub proof fn law_no_share_stays_writable(t: Tree, uid: Uid, ino: u64)
    requires
        t.entries.contains_key(ino),
    ensures
        ({
            let s = t.downgraded_all();
            &&& s.entries.contains_key(ino)
            &&& s.entries[ino] == (Entry { access: s.entries[ino].access, ..t.entries[ino] })
            &&& t.share_access.contains_key(uid) && t.by_uid.contains_key(uid) ==> forall|
                way: Seq<u64>,
            | #[trigger]
                leads_up(t, way, ino, t.by_uid[uid]) && way.len() <= t.next_ino
                    ==> !s.entries[ino].access.can_write()
            &&& (s.entries[ino].access != t.entries[ino].access ==> exists|v: Uid, way: Seq<u64>|
                t.share_access.contains_key(v) && t.by_uid.contains_key(v) && #[trigger] leads_up(
                    t,
                    way,
                    ino,
                    t.by_uid[v],
                ))
            &&& t.share_access.contains_key(uid) ==> s.share_access.contains_key(uid)
                && s.share_access[uid] is Viewer
        }),
{
    if t.share_access.contains_key(uid) && t.by_uid.contains_key(uid) {
        let root = t.by_uid[uid];
        assert forall|way: Seq<u64>| #[trigger]
            leads_up(t, way, ino, root) && way.len() <= t.next_ino
                implies !t.downgraded_all().entries[ino].access.can_write() by {
            lemma_way_is_below(t, way, ino, root, t.next_ino as nat);
            assert(t.in_subtree(ino, t.by_uid[uid]));
            assert(t.below_a_share(ino));
        }
    }
    if t.below_a_share(ino) {
        let v = choose|v: Uid| #[trigger]
            t.share_access.contains_key(v) && t.by_uid.contains_key(v) && t.in_subtree(
                ino,
                t.by_uid[v],
            );
        let way = lemma_below_has_a_way(t, ino, t.by_uid[v], t.next_ino as nat);
        assert(leads_up(t, way, ino, t.by_uid[v]));
    }
}

/// Withdrawing a subtree hides its root and everything below it, and nothing else: what is
/// on the way below is in the trash, everything else is as it was, and the root is in the
/// listing of its folder no more.
pub proof fn law_withdrawal_hides_what_is_below(t: Tree, uid: Uid, ino: u64)
    requires
        t.entries.contains_key(ino),
        t.by_uid.contains_key(uid),
    ensures
        ({
            let s = t.withdrawn(uid);
            let root = t.by_uid[uid];
            &&& s.entries.contains_key(ino)
            &&& s.entries[ino].node == (Node {
                trashed: s.entries[ino].node.trashed,
                ..t.entries[ino].node
            })
            &&& s.entries[ino].access == t.entries[ino].access && s.entries[ino].parent
                == t.entries[ino].parent
            &&& t.entries[ino].node.trashed ==> s.entries[ino].node.trashed
            &&& forall|way: Seq<u64>| #[trigger]
                leads_up(t, way, ino, root) && way.len() <= t.next_ino
                    ==> s.entries[ino].node.trashed && !s.reachable(ino, s.next_ino as nat)
            &&& s.entries[ino].node.trashed && !t.entries[ino].node.trashed ==> exists|
                way: Seq<u64>,
            | #[trigger]
                leads_up(t, way, ino, root)
            &&& t.entries.contains_key(root) && s.listings.contains_key(t.entries[root].parent)
                ==> !s.listings[t.entries[root].parent].contains(root)
            &&& s.by_uid == t.by_uid
        }),
{
    let root = t.by_uid[uid];
    assert forall|way: Seq<u64>| #[trigger]
        leads_up(t, way, ino, root) && way.len() <= t.next_ino implies t.withdrawn(
        uid,
    ).entries[ino].node.trashed by {
        lemma_way_is_below(t, way, ino, root, t.next_ino as nat);
    }
    if t.in_subtree(ino, root) {
        let way = lemma_below_has_a_way(t, ino, root, t.next_ino as nat);
        assert(leads_up(t, way, ino, root));
    }
    if t.entries.contains_key(root) && t.listings.contains_key(t.entries[root].parent) {
        lemma_without(t.listings[t.entries[root].parent], root);
    }
}

/// What a mount owns is resident, on the volume of its root, linked, not in the trash, and
/// not left out of the listing of its folder where that is known; and so is everything on
/// its way up. The root itself is owned while it is none of these.
pub proof fn law_nothing_hidden_is_owned(t: Tree, uid: Uid)
    requires
        t.by_uid.contains_key(uid),
    ensures
        t.owns_visible(uid) ==> {
            let ino = t.by_uid[uid];
            let e = t.entries[ino];
            &&& t.entries.contains_key(ino) && !e.unlinked && !e.node.trashed
            &&& t.entries.contains_key(ROOT_INO) && t.entries[ROOT_INO].uid@.volume == uid.volume
            &&& ino != ROOT_INO && t.listings.contains_key(e.parent)
                ==> t.listings[e.parent].contains(ino)
            &&& ino != ROOT_INO ==> t.entries.contains_key(e.parent)
                && !t.entries[e.parent].unlinked && !t.entries[e.parent].node.trashed
        },
        t.by_uid[uid] == ROOT_INO && t.entries.contains_key(ROOT_INO)
            && t.entries[ROOT_INO].uid@.volume == uid.volume && !t.entries[ROOT_INO].unlinked
            && !t.entries[ROOT_INO].node.trashed ==> t.owns_visible(uid),
{
    reveal_with_fuel(Tree::reachable, 3);
}

/// A child of the root that is linked, not in the trash, and listed where the root's
/// listing is known, is owned.
pub proof fn law_children_of_the_root_are_owned(t: Tree, uid: Uid)
    requires
        t.next_ino >= 1,
        t.by_uid.contains_key(uid),
        t.entries.contains_key(t.by_uid[uid]),
        t.entries.contains_key(ROOT_INO),
        t.entries[t.by_uid[uid]].parent == ROOT_INO,
        t.entries[ROOT_INO].uid@.volume == uid.volume,
        !t.entries[ROOT_INO].unlinked && !t.entries[ROOT_INO].node.trashed,
        !t.entries[t.by_uid[uid]].unlinked && !t.entries[t.by_uid[uid]].node.trashed,
        t.listings.contains_key(ROOT_INO) ==> t.listings[ROOT_INO].contains(t.by_uid[uid]),
    ensures
        t.owns_visible(uid),
{
    reveal_with_fuel(Tree::reachable, 3);
}

/// Giving up one reference to an inode takes one reference, and retires the inode just when
/// it was the last one to a node that has left the namespace.
pub proof fn law_last_release_retires(t: Tree, ino: u64)
    requires
        t.wf(),
        t.entries.contains_key(ino),
        t.by_uid.contains_key(t.entries[ino].uid@),
        t.by_uid[t.entries[ino].uid@] == ino,
    ensures
        ({
            let s = released(t, ino);
            let e = t.entries[ino];
            &&& e.open_count > 1 ==> s.entries.contains_key(ino) && s.entries[ino].open_count
                == e.open_count - 1
            &&& e.open_count <= 1 && e.unlinked ==> !s.entries.contains_key(ino)
                && !s.by_uid.contains_key(e.uid@)
            &&& !e.unlinked ==> s.entries.contains_key(ino) && s.by_uid == t.by_uid && s.listings
                == t.listings
            &&& forall|i: u64|
                i != ino && #[trigger] t.entries.contains_key(i) ==> s.entries.contains_key(i)
                    && s.entries[i] == t.entries[i]
        }),
{
}

/// A dentry is the folder and the name of a resident node.
pub proof fn law_dentries_are_of_residents(t: Tree, uid: Uid)
    ensures
        t.dentry(uid) is Some <==> t.by_uid.contains_key(uid) && t.entries.contains_key(
            t.by_uid[uid],
        ),
        t.dentry(uid) is Some ==> ({
            let d = t.dentry(uid)->0;
            d.0 == t.entries[t.by_uid[uid]].parent && d.1 == t.entries[t.by_uid[uid]].node.name@
        }),
{
}

/// A node that stands below a folder may be written as its own share says, and as the folder
/// may where it is no share; where the folder is not known it may not be.
pub proof fn law_shares_decide_for_themselves(t: Tree, uid: Uid, parent: u64)
    ensures
        t.share_access.contains_key(uid) ==> t.access_below(uid, parent) == t.share_access[uid],
        !t.share_access.contains_key(uid) && t.entries.contains_key(parent) ==> t.access_below(
            uid,
            parent,
        ) == t.entries[parent].access,
        t.access_below(uid, parent).can_write() ==> t.share_access.contains_key(uid)
            || t.entries.contains_key(parent),
{
}

/// An inode is retired by its last release, and only once its node has left the namespace.
pub proof fn law_linked_inodes_are_not_retired(t: Tree, ino: u64)
    ensures
        retires(t, ino) ==> t.entries.contains_key(ino) && t.entries[ino].unlinked,
        t.entries.contains_key(ino) && t.entries[ino].open_count > 1 ==> !retires(t, ino),
        t.entries.contains_key(ino) && t.entries[ino].open_count <= 1 && t.entries[ino].unlinked
            ==> retires(t, ino),
{
}

/// Nodes that are interned together are found as they were given, the last of one uid as it
/// was given last; what none of them is stays.
pub proof fn law_interned_nodes_are_all_placed(
    t: Tree,
    parent: u64,
    nodes: Seq<Node>,
    i: int,
    other: u64,
)
    requires
        t.wf(),
        t.next_ino + nodes.len() <= u64::MAX,
    ensures
        t.interned_all(parent, nodes).0.wf(),
        t.interned_all(parent, nodes).0.next_ino <= t.next_ino + nodes.len(),
        t.interned_all(parent, nodes).1.len() == nodes.len(),
        (0 <= i < nodes.len() && forall|j: int|
            i < j < nodes.len() ==> (#[trigger] nodes[j]).uid@ != nodes[i].uid@) ==> {
            let s = t.interned_all(parent, nodes).0;
            let ino = s.by_uid[nodes[i].uid@];
            &&& s.by_uid.contains_key(nodes[i].uid@) && s.entries.contains_key(ino)
            &&& s.entries[ino].node == nodes[i] && s.entries[ino].parent == parent
        },
        t.entries.contains_key(other) && (forall|j: int|
            0 <= j < nodes.len() ==> !(t.by_uid.contains_key((#[trigger] nodes[j]).uid@)
                && t.by_uid[nodes[j].uid@] == other)) && other < t.next_ino ==> t.interned_all(
            parent,
            nodes,
        ).0.entries.contains_key(other) && t.interned_all(parent, nodes).0.entries[other]
            == t.entries[other],
        forall|u: Uid| #[trigger]
            t.by_uid.contains_key(u) ==> t.interned_all(parent, nodes).0.by_uid.contains_key(u)
                && t.interned_all(parent, nodes).0.by_uid[u] == t.by_uid[u],
        forall|u: Uid| #[trigger]
            t.interned_all(parent, nodes).0.by_uid.contains_key(u) && !t.by_uid.contains_key(u)
                ==> t.interned_all(parent, nodes).0.by_uid[u] >= t.next_ino,
        t.interned_all(parent, nodes).0.next_ino >= t.next_ino,
    decreases nodes.len(),
{
    if nodes.len() > 0 {
        let rest = nodes.drop_last();
        let last = nodes.len() - 1;
        assert(nodes[last] == nodes.last());
        assert(forall|j: int| 0 <= j < rest.len() ==> #[trigger] rest[j] == nodes[j]);
        law_interned_nodes_are_all_placed(t, parent, rest, i, other);
        let s = t.interned_all(parent, rest).0;
        law_intern_keeps_wf(s, parent, nodes.last());
        law_interned_is_placed(s, parent, nodes.last());
        if 0 <= i < rest.len() && (forall|j: int|
            i < j < nodes.len() ==> (#[trigger] nodes[j]).uid@ != nodes[i].uid@) {
            assert(nodes[last].uid@ != nodes[i].uid@);
            assert forall|j: int| i < j < rest.len() implies (#[trigger] rest[j]).uid@
                != rest[i].uid@ by {
                assert(nodes[j].uid@ != nodes[i].uid@);
            }
        }
        if t.entries.contains_key(other) && (forall|j: int|
            0 <= j < nodes.len() ==> !(t.by_uid.contains_key((#[trigger] nodes[j]).uid@)
                && t.by_uid[nodes[j].uid@] == other)) && other < t.next_ino {
            assert forall|j: int| 0 <= j < rest.len() implies !(t.by_uid.contains_key(
                (#[trigger] rest[j]).uid@,
            ) && t.by_uid[rest[j].uid@] == other) by {
                assert(rest[j] == nodes[j]);
            }
            let u = nodes[last].uid@;
            assert(!(t.by_uid.contains_key(u) && t.by_uid[u] == other));
        }
    }
}

} // verus!

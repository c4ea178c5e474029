//! What the resident tree takes over from the remote once a queued row has landed.

use crate::node::{copy_opt_uid, Node};
use crate::state::{contains_ino, lemma_without, Entry, State, Tree, ROOT_INO};
use crate::text::{chars_of, concat2, string_between};
use crate::uid::{NodeUid, Uid};
use vstd::prelude::*;

verus! {

broadcast use vstd::std_specs::hash::group_hash_axioms;

impl Tree {
    /// The entry of `uid`, if it is resident.
    pub open spec fn resident(self, uid: Uid) -> Option<Entry> {
        if self.by_uid.contains_key(uid) && self.entries.contains_key(self.by_uid[uid]) {
            Some(self.entries[self.by_uid[uid]])
        } else {
            None
        }
    }

    /// The tree after the inode of `local` was given the identity `landed`.
    pub open spec fn reidentified(self, local: Uid, landed: NodeUid, node: Node) -> Tree {
        let ino = self.by_uid[local];
        Tree {
            entries: if self.entries.contains_key(ino) {
                self.entries.insert(ino, Entry { uid: landed, node, ..self.entries[ino] })
            } else {
                self.entries
            },
            by_uid: self.by_uid.remove(local).insert(landed@, ino),
            ..self
        }
    }

    /// The tree after `ino` was moved below `parent`.
    pub open spec fn reparented(self, ino: u64, parent: u64) -> Tree {
        let left = self.dropped_from(self.entries[ino].parent, ino);
        Tree {
            entries: self.entries.insert(ino, Entry { parent, ..self.entries[ino] }),
            listings: if left.contains_key(parent) && !left[parent].contains(ino) {
                left.insert(parent, left[parent].push(ino))
            } else {
                left
            },
            ..self
        }
    }

    /// The tree after the placeholder `local` became `landed`, which the remote has
    /// as `node`. The inode stays; the folder is the one that the remote reports.
    pub open spec fn adopted(self, local: Uid, landed: NodeUid, node: Node) -> Tree {
        if !self.by_uid.contains_key(local) {
            self
        } else {
            let ino = self.by_uid[local];
            let t = self.reidentified(local, landed, node);
            match node.parent_uid {
                Some(p) => if t.by_uid.contains_key(p@) && t.entries.contains_key(ino)
                    && t.entries[ino].parent != t.by_uid[p@] {
                    t.reparented(ino, t.by_uid[p@])
                } else {
                    t
                },
                None => t,
            }
        }
    }

    /// The tree after `uid` took the name that the remote gave it.
    pub open spec fn renamed(self, uid: Uid, name: String) -> Tree {
        match self.resident(uid) {
            None => self,
            Some(e) => Tree {
                entries: self.entries.insert(
                    self.by_uid[uid],
                    Entry { node: Node { name, ..e.node }, ..e },
                ),
                ..self
            },
        }
    }
}

/// Take over the name that the remote gave a node, if it is resident here. The
/// answer is whether it is.
pub fn adopt_drained_name(state: &mut State, uid: &NodeUid, name: &String) -> (r: bool)
    ensures
        final(state)@ == old(state)@.renamed(uid@, *name),
        r == (old(state)@.resident(uid@) is Some),
        old(state)@.wf() ==> final(state)@.wf(),
{
    let ghost before = state@;
    let ino = match state.ino_of(uid) {
        None => {
            return false;
        },
        Some(ino) => ino,
    };
    match state.entries.remove(&ino) {
        None => {
            assert(state@.entries =~= before.entries);
            assert(state@ =~= before);
            false
        },
        Some(e) => {
            let mut e = e;
            e.node.name = name.clone();
            state.entries.insert(ino, e);
            assert(state@.entries =~= before.renamed(uid@, *name).entries);
            assert(state@ =~= before.renamed(uid@, *name));
            true
        },
    }
}

fn reparent(state: &mut State, ino: u64, parent: u64)
    requires
        old(state)@.entries.contains_key(ino),
    ensures
        final(state)@ == old(state)@.reparented(ino, parent),
        old(state)@.wf() ==> final(state)@.wf(),
{
    let ghost before = state@;
    match state.entries.remove(&ino) {
        None => {},
        Some(e) => {
            let mut e = e;
            let old_parent: u64 = e.parent;
            e.parent = parent;
            state.entries.insert(ino, e);
            let ghost entries = state@.entries;
            assert(entries =~= before.reparented(ino, parent).entries);
            state.drop_child(old_parent, ino);
            let ghost left = state@.listings;
            assert(left == before.dropped_from(old_parent, ino));
            match state.children.remove(&parent) {
                None => {
                    assert(state@.listings =~= left);
                },
                Some(kids) => {
                    let mut kids = kids;
                    let ghost had = kids@;
                    if !contains_ino(&kids, ino) {
                        kids.push(ino);
                    }
                    state.children.insert(parent, kids);
                    assert(state@.listings =~= left.insert(parent, kids@));
                    assert(had.contains(ino) ==> state@.listings =~= left);
                },
            }
            assert(state@ =~= before.reparented(ino, parent));
        },
    }
}

/// Give the inode of a placeholder its real identity. An open file keeps working:
/// its inode stays.
pub fn adopt_real_uid(state: &mut State, local: &NodeUid, landed: &NodeUid, node: &Node)
    ensures
        final(state)@ == old(state)@.adopted(local@, *landed, *node),
        old(state)@.wf() ==> final(state)@.wf(),
{
    let ghost before = state@;
    proof {
        if before.wf() && before.by_uid.contains_key(local@) {
            lemma_adopted_wf(before, local@, *landed, *node);
        }
    }
    let ino: u64 = match state.by_uid.remove(local) {
        None => {
            assert(state@.by_uid =~= before.by_uid);
            assert(state@ =~= before);
            return ;
        },
        Some(ino) => ino,
    };
    state.by_uid.insert(landed.clone(), ino);
    let known: bool = match state.entries.remove(&ino) {
        None => {
            assert(state@.entries =~= before.entries);
            false
        },
        Some(e) => {
            let mut e = e;
            e.uid = landed.clone();
            e.node = node.clone();
            state.entries.insert(ino, e);
            true
        },
    };
    let ghost t = before.reidentified(local@, *landed, *node);
    assert(state@.entries =~= t.entries);
    assert(state@ =~= t);
    if !known {
        return ;
    }
    if let Some(parent) = &node.parent_uid {
        if let Some(pino) = state.ino_of(parent) {
            let at: u64 = match state.entries.get(&ino) {
                Some(e) => e.parent,
                None => pino,
            };
            if at != pino {
                reparent(state, ino, pino);
            }
        }
    }
}

proof fn lemma_adopted_wf(t: Tree, local: Uid, landed: NodeUid, node: Node)
    requires
        t.wf(),
        t.by_uid.contains_key(local),
    ensures
        t.adopted(local, landed, node).wf(),
{
    let ino = t.by_uid[local];
    let r = t.reidentified(local, landed, node);
    assert forall|u: Uid| #[trigger] r.by_uid.contains_key(u) implies ROOT_INO <= r.by_uid[u]
        < r.next_ino && (r.entries.contains_key(r.by_uid[u]) ==> r.entries[r.by_uid[u]].uid@
        == u) by {
        if u != landed@ {
            assert(t.by_uid.contains_key(u));
            assert(t.by_uid[u] != ino);
        }
    }
    assert forall|u: Uid, v: Uid| #[trigger]
        r.by_uid.contains_key(u) && #[trigger] r.by_uid.contains_key(v) && r.by_uid[u]
            == r.by_uid[v] implies u == v by {
        if u != landed@ {
            assert(t.by_uid.contains_key(u));
        }
        if v != landed@ {
            assert(t.by_uid.contains_key(v));
        }
    }
    assert(r.wf());
    let a = t.adopted(local, landed, node);
    if a != r {
        let pino = r.by_uid[(node.parent_uid->0)@];
        assert(a == r.reparented(ino, pino));
        assert(a.by_uid == r.by_uid);
        assert forall|i: u64| #[trigger] a.entries.contains_key(i) implies i < a.next_ino
            && a.entries[i].uid == r.entries[i].uid by {
            assert(r.entries.contains_key(i));
        }
        assert forall|u: Uid| #[trigger] a.by_uid.contains_key(u) implies ROOT_INO <= a.by_uid[u]
            < a.next_ino && (a.entries.contains_key(a.by_uid[u]) ==> a.entries[a.by_uid[u]].uid@
            == u) by {
            assert(r.by_uid.contains_key(u));
        }
        assert forall|i: u64| #[trigger] a.listings.contains_key(i) implies i < a.next_ino by {
            assert(r.listings.contains_key(i));
        }
    }
}

/// Adopting a real identity keeps the inode space sound, also where a listing had that
/// identity under an inode of its own: the placeholder is gone, and its inode answers to
/// the real one.
pub proof fn law_adoption_keeps_the_inode(t: Tree, local: Uid, landed: NodeUid, node: Node)
    requires
        t.wf(),
        t.by_uid.contains_key(local),
        landed@ != local,
    ensures
        t.adopted(local, landed, node).wf(),
        t.adopted(local, landed, node).by_uid.contains_key(landed@),
        t.adopted(local, landed, node).by_uid[landed@] == t.by_uid[local],
        !t.adopted(local, landed, node).by_uid.contains_key(local),
        t.entries.contains_key(t.by_uid[local]) ==> t.adopted(local, landed, node).entries.contains_key(
            t.by_uid[local],
        ) && t.adopted(local, landed, node).entries[t.by_uid[local]].open_count
            == t.entries[t.by_uid[local]].open_count,
{
    lemma_adopted_wf(t, local, landed, node);
}

/// Whether the node is open here.
pub fn uid_is_open(state: &State, uid: &NodeUid) -> (r: bool)
    ensures
        r == (match state@.resident(uid@) {
            Some(e) => e.open_count > 0,
            None => false,
        }),
{
    match state.ino_of(uid) {
        None => false,
        Some(ino) => match state.entries.get(&ino) {
            Some(e) => e.open_count > 0,
            None => false,
        },
    }
}

/// The folder and the name of a node, as one tree has them.
pub open spec fn place_of(node: Node) -> Option<(Uid, Seq<char>)> {
    match node.parent_uid {
        Some(p) => Some((p@, node.name@)),
        None => None,
    }
}

/// Whether `r` is the folder and the name that `want` says.
pub open spec fn is_place(r: Option<(NodeUid, String)>, want: Option<(Uid, Seq<char>)>) -> bool {
    match (r, want) {
        (Some(a), Some(b)) => a.0@ == b.0 && a.1@ == b.1,
        (None, None) => true,
        _ => false,
    }
}

fn place(node: &Node) -> (r: Option<(NodeUid, String)>)
    ensures
        is_place(r, place_of(*node)),
{
    match copy_opt_uid(&node.parent_uid) {
        Some(p) => Some((p, node.name.clone())),
        None => None,
    }
}

/// The folder and the name of a node: from the first of the mounts that has it
/// resident with a folder, and else from its stored row.
pub open spec fn place_among(states: Seq<&State>, uid: Uid, stored: Option<Node>) -> Option<
    (Uid, Seq<char>),
>
    decreases states.len(),
{
    if states.len() == 0 {
        match stored {
            Some(n) => place_of(n),
            None => None,
        }
    } else {
        match states[0]@.resident(uid) {
            Some(e) => if e.node.parent_uid is Some {
                place_of(e.node)
            } else {
                place_among(states.skip(1), uid, stored)
            },
            None => place_among(states.skip(1), uid, stored),
        }
    }
}

/// The folder and the name of a node. Every mount is asked: a node inside a synced
/// folder is resident in that mount alone.
pub fn node_place(states: &Vec<&State>, uid: &NodeUid, stored: &Option<Node>) -> (r: Option<
    (NodeUid, String),
>)
    ensures
        is_place(r, place_among(states@, uid@, *stored)),
{
    let mut i: usize = 0;
    assert(states@.skip(0) =~= states@);
    while i < states.len()
        invariant
            i <= states@.len(),
            place_among(states@, uid@, *stored) == place_among(
                states@.skip(i as int),
                uid@,
                *stored,
            ),
        decreases states@.len() - i,
    {
        let st: &State = states[i];
        assert(states@.skip(i as int)[0] == st);
        assert(states@.skip(i as int).skip(1) =~= states@.skip(i + 1));
        if let Some(ino) = st.ino_of(uid) {
            if let Some(e) = st.entries.get(&ino) {
                if e.node.parent_uid.is_some() {
                    return place(&e.node);
                }
            }
        }
        i = i + 1;
    }
    match stored {
        Some(n) => place(n),
        None => None,
    }
}

/// A short name for a node that nothing has a name for: the start of its link.
pub open spec fn recovered_name(uid: Uid) -> Seq<char> {
    "recovered-"@ + (if uid.link.len() <= 8 {
        uid.link
    } else {
        uid.link.take(8)
    })
}

/// The name to show for a node.
pub fn node_name(place: &Option<(NodeUid, String)>, uid: &NodeUid) -> (r: String)
    ensures
        r@ == (match *place {
            Some(p) => p.1@,
            None => recovered_name(uid@),
        }),
{
    match place {
        Some(p) => p.1.clone(),
        None => {
            let v = chars_of(uid.link_id.as_str());
            let n: usize = if v.len() <= 8 {
                v.len()
            } else {
                8
            };
            let short = string_between(&v, 0, n);
            assert(short@ =~= (if uid@.link.len() <= 8 {
                uid@.link
            } else {
                uid@.link.take(8)
            }));
            concat2("recovered-", short.as_str())
        },
    }
}

/// The identity of the root of a mount, once it has one.
pub fn root_uid(state: &State) -> (r: Option<NodeUid>)
    ensures
        r == (if state@.entries.contains_key(ROOT_INO) {
            Some(state@.entries[ROOT_INO].uid)
        } else {
            None::<NodeUid>
        }),
{
    match state.entries.get(&ROOT_INO) {
        Some(e) => Some(e.uid.clone()),
        None => None,
    }
}

/// Take over the remote's metadata of a node that was just uploaded, where it is
/// resident.
pub fn refresh_resident(state: &mut State, uid: &NodeUid, node: &Node)
    requires
        old(state).next_ino < u64::MAX,
    ensures
        final(state)@ == (match old(state)@.resident(uid@) {
            Some(e) => old(state)@.interned(e.parent, *node),
            None => old(state)@,
        }),
        old(state)@.wf() ==> final(state)@.wf(),
{
    let parent: u64 = match state.ino_of(uid) {
        None => {
            return ;
        },
        Some(ino) => match state.entries.get(&ino) {
            None => {
                return ;
            },
            Some(e) => e.parent,
        },
    };
    state.intern_mem(parent, node.clone());
}

/// What a landed upload still asks for.
#[derive(Debug, Clone, Copy, PartialEq, Eq, Structural)]
pub enum AfterUpload {
    /// The node could not be read back, or is gone: leave the tree alone.
    Nothing,
    /// Claim the change, rebase the open handles, and rebase the queued write.
    Rebase,
    /// As above, and there was no queued write: refresh the tree as well.
    RebaseAndRefresh,
}

/// What a landed upload still asks for. `read_back` is whether the node was read
/// back from the remote, and `queued` whether a newer write of it is queued.
pub fn refresh_after_upload(read_back: bool, queued: bool) -> (r: AfterUpload)
    ensures
        r == (if !read_back {
            AfterUpload::Nothing
        } else if queued {
            AfterUpload::Rebase
        } else {
            AfterUpload::RebaseAndRefresh
        }),
{
    if !read_back {
        AfterUpload::Nothing
    } else if queued {
        AfterUpload::Rebase
    } else {
        AfterUpload::RebaseAndRefresh
    }
}

impl Tree {
    /// The tree after `ino` was given a new folder and name.
    pub open spec fn relocated(self, ino: u64, parent: u64, parent_uid: NodeUid, name: String) -> Tree {
        if !self.entries.contains_key(ino) {
            self
        } else {
            let e = self.entries[ino];
            let t = Tree {
                entries: self.entries.insert(
                    ino,
                    Entry {
                        node: Node { parent_uid: Some(parent_uid), name, ..e.node },
                        ..e
                    },
                ),
                ..self
            };
            if e.parent == parent {
                t
            } else {
                t.reparented(ino, parent)
            }
        }
    }
}

/// Give an inode a new folder and name at once, ahead of the remote.
pub fn rename_in_place(
    state: &mut State,
    ino: u64,
    new_parent: u64,
    new_parent_uid: &NodeUid,
    new_name: &String,
)
    ensures
        final(state)@ == old(state)@.relocated(ino, new_parent, *new_parent_uid, *new_name),
        old(state)@.wf() ==> final(state)@.wf(),
{
    let ghost before = state@;
    match state.entries.remove(&ino) {
        None => {
            assert(state@.entries =~= before.entries);
            assert(state@ =~= before);
        },
        Some(e) => {
            let mut e = e;
            let moved: bool = e.parent != new_parent;
            e.node.parent_uid = Some(new_parent_uid.clone());
            e.node.name = new_name.clone();
            state.entries.insert(ino, e);
            let ghost t = Tree { entries: before.entries.insert(ino, e), ..before };
            assert(state@.entries =~= t.entries);
            assert(state@ =~= t);
            if moved {
                reparent(state, ino, new_parent);
            }
        },
    }
}

/// Take over what the remote says of the mounted root, now that it can be asked again.
pub fn refresh_root(state: &mut State, root: Node)
    ensures
        final(state)@ == (if old(state)@.entries.contains_key(ROOT_INO) {
            Tree {
                entries: old(state)@.entries.insert(
                    ROOT_INO,
                    Entry { node: root, ..old(state)@.entries[ROOT_INO] },
                ),
                ..old(state)@
            }
        } else {
            old(state)@
        }),
        old(state)@.wf() ==> final(state)@.wf(),
{
    let ghost before = state@;
    match state.entries.remove(&ROOT_INO) {
        None => {
            assert(state@.entries =~= before.entries);
            assert(state@ =~= before);
        },
        Some(e) => {
            let mut e = e;
            e.node = root;
            state.entries.insert(ROOT_INO, e);
            assert(state@.entries =~= before.entries.insert(ROOT_INO, e));
            assert(state@ =~= (Tree { entries: before.entries.insert(ROOT_INO, e), ..before }));
        },
    }
}

/// A node that landed is shown as it landed, under the inode that the placeholder had, and
/// in the folder it landed in where a mount knows that; nothing but its entry and the
/// listings of its two folders changes.
pub proof fn law_adoption_shows_what_landed(t: Tree, local: Uid, landed: NodeUid, node: Node)
    requires
        t.wf(),
        t.by_uid.contains_key(local),
        t.entries.contains_key(t.by_uid[local]),
        landed@ != local,
        node.parent_uid is Some ==> (node.parent_uid->0)@ != local,
    ensures
        ({
            let s = t.adopted(local, landed, node);
            let ino = t.by_uid[local];
            let e = s.entries[ino];
            &&& e.node == node && e.uid == landed && e.access == t.entries[ino].access
                && e.unlinked == t.entries[ino].unlinked
            &&& node.parent_uid is Some && t.by_uid.contains_key((node.parent_uid->0)@) && (
            node.parent_uid->0)@ != landed@ ==> {
                let folder = t.by_uid[(node.parent_uid->0)@];
                &&& e.parent == folder
                &&& folder != t.entries[ino].parent && s.listings.contains_key(folder)
                    ==> s.listings[folder].contains(ino)
                &&& folder != t.entries[ino].parent && s.listings.contains_key(
                    t.entries[ino].parent,
                ) ==> !s.listings[t.entries[ino].parent].contains(ino)
            }
            &&& node.parent_uid is None ==> e.parent == t.entries[ino].parent && s.listings
                == t.listings
            &&& forall|i: u64|
                i != ino && #[trigger] t.entries.contains_key(i) ==> s.entries.contains_key(i)
                    && s.entries[i] == t.entries[i]
            &&& forall|u: Uid|
                u != local && u != landed@ && #[trigger] t.by_uid.contains_key(u)
                    ==> s.by_uid.contains_key(u) && s.by_uid[u] == t.by_uid[u]
            &&& forall|d: u64, k: u64|
                k != ino && #[trigger] t.listings.contains_key(d) && #[trigger] t.listings[d].contains(
                    k,
                ) ==> s.listings.contains_key(d) && s.listings[d].contains(k)
        }),
{
    let ino = t.by_uid[local];
    let r = t.reidentified(local, landed, node);
    if node.parent_uid is Some && r.by_uid.contains_key((node.parent_uid->0)@)
        && r.entries[ino].parent != r.by_uid[(node.parent_uid->0)@] {
        law_reparenting_moves_one_node(r, ino, r.by_uid[(node.parent_uid->0)@]);
    }
}

/// A node that is put into another folder is in its listing where that is known, and in
/// that of its old folder no more. Everything else stays.
pub proof fn law_reparenting_moves_one_node(t: Tree, ino: u64, parent: u64)
    requires
        t.entries.contains_key(ino),
        t.entries[ino].parent != parent,
    ensures
        ({
            let s = t.reparented(ino, parent);
            let from = t.entries[ino].parent;
            &&& s.entries.contains_key(ino) && s.entries[ino] == (Entry {
                parent,
                ..t.entries[ino]
            })
            &&& t.listings.contains_key(parent) ==> s.listings.contains_key(parent)
                && s.listings[parent].contains(ino)
            &&& t.listings.contains_key(from) ==> s.listings.contains_key(from)
                && !s.listings[from].contains(ino)
            &&& forall|d: u64| #[trigger]
                s.listings.contains_key(d) <==> t.listings.contains_key(d)
            &&& forall|d: u64, k: u64|
                k != ino && #[trigger] t.listings.contains_key(d) ==> (
                #[trigger] t.listings[d].contains(k) <==> s.listings[d].contains(k))
            &&& forall|i: u64|
                i != ino ==> (#[trigger] s.entries.contains_key(i) <==> t.entries.contains_key(i))
                    && (t.entries.contains_key(i) ==> s.entries[i] == t.entries[i])
            &&& s.by_uid == t.by_uid && s.share_access == t.share_access
        }),
{
    let s = t.reparented(ino, parent);
    let from = t.entries[ino].parent;
    if t.listings.contains_key(from) {
        lemma_without(t.listings[from], ino);
    }
    if t.listings.contains_key(parent) {
        let had = t.listings[parent];
        if !had.contains(ino) {
            assert(had.push(ino)[had.len() as int] == ino);
            assert forall|k: u64| k != ino implies (#[trigger] had.contains(k) <==> had.push(
                ino,
            ).contains(k)) by {
                if had.contains(k) {
                    let i = choose|i: int| 0 <= i < had.len() && had[i] == k;
                    assert(had.push(ino)[i] == k);
                }
                if had.push(ino).contains(k) {
                    let i = choose|i: int| 0 <= i < had.push(ino).len() && had.push(ino)[i] == k;
                    assert(had[i] == k);
                }
            }
        }
    }
}

/// A name that drained changes the name and nothing else.
pub proof fn law_drained_name_is_all_that_changes(t: Tree, uid: Uid, name: String)
    requires
        t.by_uid.contains_key(uid),
        t.entries.contains_key(t.by_uid[uid]),
    ensures
        ({
            let s = t.renamed(uid, name);
            let e = t.entries[t.by_uid[uid]];
            let f = s.entries[t.by_uid[uid]];
            &&& s.entries.contains_key(t.by_uid[uid]) && f.node.name == name
            &&& f == (Entry { node: f.node, ..e }) && f.node == (Node { name, ..e.node })
            &&& forall|i: u64|
                i != t.by_uid[uid] ==> (#[trigger] s.entries.contains_key(i)
                    <==> t.entries.contains_key(i)) && (t.entries.contains_key(i) ==> s.entries[i]
                    == t.entries[i])
            &&& s.listings == t.listings && s.by_uid == t.by_uid
        }),
{
}

/// A renamed node has its new name and its new folder, is listed there and not where it
/// was, and is otherwise what it was.
pub proof fn law_rename_in_place_moves_the_entry(
    t: Tree,
    ino: u64,
    parent: u64,
    parent_uid: NodeUid,
    name: String,
)
    requires
        t.entries.contains_key(ino),
    ensures
        ({
            let s = t.relocated(ino, parent, parent_uid, name);
            let e = t.entries[ino];
            let f = s.entries[ino];
            &&& s.entries.contains_key(ino) && f.node.name == name && f.node.parent_uid == Some(
                parent_uid,
            ) && f.parent == parent
            &&& f.uid == e.uid && f.access == e.access && f.open_count == e.open_count
                && f.node.kind == e.node.kind && f.node.uid == e.node.uid
            &&& e.parent != parent && t.listings.contains_key(parent) ==> s.listings.contains_key(
                parent,
            ) && s.listings[parent].contains(ino)
            &&& e.parent != parent && t.listings.contains_key(e.parent)
                ==> !s.listings[e.parent].contains(ino)
            &&& e.parent == parent ==> s.listings == t.listings
            &&& forall|i: u64|
                i != ino && #[trigger] t.entries.contains_key(i) ==> s.entries.contains_key(i)
                    && s.entries[i] == t.entries[i]
            &&& s.by_uid == t.by_uid
        }),
{
    let e = t.entries[ino];
    let m = Tree {
        entries: t.entries.insert(
            ino,
            Entry { node: Node { parent_uid: Some(parent_uid), name, ..e.node }, ..e },
        ),
        ..t
    };
    if e.parent != parent {
        law_reparenting_moves_one_node(m, ino, parent);
    }
}

/// A node is where the first mount says that shows it in a folder, and where the index says
/// only if none does.
pub proof fn law_mounts_know_the_place_first(
    states: Seq<&State>,
    uid: Uid,
    stored: Option<Node>,
    i: int,
)
    ensures
        (0 <= i < states.len() && states[i]@.resident(uid) is Some && states[i]@.resident(
            uid,
        )->0.node.parent_uid is Some && forall|j: int|
            0 <= j < i ==> (#[trigger] states[j])@.resident(uid) is None || states[j]@.resident(
                uid,
            )->0.node.parent_uid is None) ==> place_among(states, uid, stored) == Some(
            (
                (states[i]@.resident(uid)->0.node.parent_uid->0)@,
                states[i]@.resident(uid)->0.node.name@,
            ),
        ),
        (forall|j: int|
            0 <= j < states.len() ==> (#[trigger] states[j])@.resident(uid) is None
                || states[j]@.resident(uid)->0.node.parent_uid is None) ==> place_among(
            states,
            uid,
            stored,
        ) == (if stored is Some && stored->0.parent_uid is Some {
            Some(((stored->0.parent_uid->0)@, stored->0.name@))
        } else {
            None
        }),
    decreases states.len(),
{
    if states.len() > 0 {
        let rest = states.skip(1);
        law_mounts_know_the_place_first(rest, uid, stored, i - 1);
        assert(forall|j: int| 0 <= j < rest.len() ==> #[trigger] rest[j] == states[j + 1]);
        if 0 < i < states.len() {
            assert(rest[i - 1] == states[i]);
        }
    }
}

/// A node that nothing names is named after its identity, which the name begins to tell.
pub proof fn law_recovered_names_tell_the_identity(uid: Uid)
    ensures
        "recovered-"@.is_prefix_of(recovered_name(uid)),
        recovered_name(uid).skip("recovered-"@.len() as int).is_prefix_of(uid.link),
        recovered_name(uid).len() - "recovered-"@.len() == uid.link.len()
            || recovered_name(uid).len() - "recovered-"@.len() == 8,
        recovered_name(uid).len() - "recovered-"@.len() <= 8,
{
    let tail = if uid.link.len() <= 8 {
        uid.link
    } else {
        uid.link.take(8)
    };
    assert(recovered_name(uid).skip("recovered-"@.len() as int) =~= tail);
}

/// A place that is told is the place that is meant: the same folder and name, or none where
/// none is.
pub proof fn law_told_places_are_the_places(
    r: Option<(NodeUid, String)>,
    want: Option<(Uid, Seq<char>)>,
)
    requires
        is_place(r, want),
    ensures
        r is Some <==> want is Some,
        r is Some ==> ({
            let a = r->0;
            let b = want->0;
            a.0@ == b.0 && a.1@ == b.1
        }),
{
}

/// No place is told just where none is meant.
pub proof fn law_no_place_is_a_place(node: Node)
    ensures
        is_place(None, None),
        place_of(node) is Some <==> node.parent_uid is Some,
        place_of(node) is Some ==> ({
            let p = place_of(node)->0;
            p.0 == (node.parent_uid->0)@ && p.1 == node.name@
        }),
{
}

} // verus!

//! Rebuilding an inode space from the persisted tree.
//!
//! A cold start serves what was seen before: every persisted node gets an
//! inode, and every folder that was fully enumerated gets its listing back.

use crate::access::Access;
use crate::node::Node;
use crate::state::{leads_up, Entry, State, Tree, ORPHAN_INO, ROOT_INO};
use crate::uid::Uid;
use crate::uidmap::{UidMap, UidSet};
use vstd::prelude::*;

verus! {

/// A persisted node, and whether its folder listing was complete.
pub struct StoredNode {
    pub node: Node,
    pub listed: bool,
}

/// The tree after every persisted uid got an inode. A uid that has one keeps
/// it; a hidden node gets none.
pub open spec fn assigned(t: Tree, stored: Seq<StoredNode>, hidden: Set<Uid>) -> Tree
    decreases stored.len(),
{
    if stored.len() == 0 {
        t
    } else {
        let s = assigned(t, stored.drop_last(), hidden);
        let uid = stored.last().node.uid@;
        if hidden.contains(uid) || s.by_uid.contains_key(uid) {
            s
        } else {
            Tree {
                by_uid: s.by_uid.insert(uid, s.next_ino),
                next_ino: (s.next_ino + 1) as u64,
                ..s
            }
        }
    }
}

/// The folder that a persisted node goes to: its parent's inode, or nobody's
/// when the parent is not resident.
pub open spec fn home(t: Tree, node: Node) -> u64 {
    match node.parent_uid {
        Some(p) => if t.by_uid.contains_key(p@) {
            t.by_uid[p@]
        } else {
            ORPHAN_INO
        },
        None => ORPHAN_INO,
    }
}

/// The entry that a persisted node comes back as.
pub open spec fn restored_entry(t: Tree, node: Node, sizes: Map<Uid, u64>) -> Entry {
    Entry {
        uid: node.uid,
        parent: home(t, node),
        node: node.sized(sizes),
        access: Access::Unknown,
        lookup_count: 1,
        open_count: 0,
        unlinked: false,
    }
}

/// The entries after every persisted node was restored. The root's entry is
/// the mount's own and stays.
pub open spec fn restored(
    t: Tree,
    stored: Seq<StoredNode>,
    sizes: Map<Uid, u64>,
    hidden: Set<Uid>,
) -> Map<u64, Entry>
    decreases stored.len(),
{
    if stored.len() == 0 {
        t.entries
    } else {
        let rest = restored(t, stored.drop_last(), sizes, hidden);
        let node = stored.last().node;
        if hidden.contains(node.uid@) || t.by_uid[node.uid@] == ROOT_INO {
            rest
        } else {
            rest.insert(t.by_uid[node.uid@], restored_entry(t, node, sizes))
        }
    }
}

/// What the account may do with `ino`, as far as it can be told by looking up
/// at most `fuel` folders: the nearest share's access, else the root's.
pub open spec fn effective_access(t: Tree, ino: u64, fuel: nat) -> Access
    decreases fuel,
{
    if !t.entries.contains_key(ino) {
        Access::Unknown
    } else if t.share_access.contains_key(t.entries[ino].uid@) {
        t.share_access[t.entries[ino].uid@]
    } else if ino == ROOT_INO {
        t.entries[ino].access
    } else if fuel == 0 {
        Access::Unknown
    } else {
        effective_access(t, t.entries[ino].parent, (fuel - 1) as nat)
    }
}

/// The entry `ino` with its access resolved, where it was not.
pub open spec fn resolved_entry(t: Tree, ino: u64) -> Entry {
    if t.entries[ino].access == Access::Unknown {
        Entry { access: effective_access(t, ino, t.next_ino as nat), ..t.entries[ino] }
    } else {
        t.entries[ino]
    }
}

/// Whether `ino` is listed in the rebuilt listing of `dir`. No folder is listed
/// inside itself.
pub open spec fn is_kid(t: Tree, ino: u64, dir: u64) -> bool {
    ino != dir && t.entries.contains_key(ino) && t.entries[ino].parent == dir
        && !t.entries[ino].node.trashed
}

/// The rebuilt listing of `dir`, in ascending order of inodes.
pub open spec fn kids(t: Tree, dir: u64, upto: nat) -> Seq<u64>
    decreases upto,
{
    if upto == 0 {
        seq![]
    } else {
        let ino = (upto - 1) as u64;
        let rest = kids(t, dir, (upto - 1) as nat);
        if is_kid(t, ino, dir) {
            rest.push(ino)
        } else {
            rest
        }
    }
}

/// Whether the persisted tree records `ino` as a fully enumerated folder.
pub open spec fn was_listed(
    t: Tree,
    stored: Seq<StoredNode>,
    hidden: Set<Uid>,
    ino: u64,
) -> bool {
    exists|i: int|
        0 <= i < stored.len() && (#[trigger] stored[i]).listed && stored[i].node.kind is Folder
            && !hidden.contains(stored[i].node.uid@) && t.by_uid[stored[i].node.uid@] == ino
}

/// The tree with every inode assigned and every entry restored.
pub open spec fn populated(
    t: Tree,
    stored: Seq<StoredNode>,
    sizes: Map<Uid, u64>,
    hidden: Set<Uid>,
) -> Tree {
    let a = assigned(t, stored, hidden);
    Tree { entries: restored(a, stored, sizes, hidden), ..a }
}

/// The tree with every access resolved.
pub open spec fn with_access(t: Tree) -> Tree {
    Tree {
        entries: Map::new(
            |ino: u64| t.entries.contains_key(ino),
            |ino: u64| resolved_entry(t, ino),
        ),
        ..t
    }
}

/// The inode space rebuilt from the persisted tree. Where nothing is persisted, it stays
/// as it is.
pub open spec fn hydrated(
    t: Tree,
    stored: Seq<StoredNode>,
    sizes: Map<Uid, u64>,
    hidden: Set<Uid>,
) -> Tree {
    if stored.len() == 0 {
        t
    } else {
        rebuilt(t, stored, sizes, hidden)
    }
}

/// The inode space with every persisted node in it, the access of each entry resolved,
/// and the listings of the folders that were listed.
pub open spec fn rebuilt(
    t: Tree,
    stored: Seq<StoredNode>,
    sizes: Map<Uid, u64>,
    hidden: Set<Uid>,
) -> Tree {
    let p = with_access(populated(t, stored, sizes, hidden));
    Tree {
        listings: Map::new(
            |d: u64| t.listings.contains_key(d) || was_listed(p, stored, hidden, d),
            |d: u64|
                if was_listed(p, stored, hidden, d) {
                    kids(p, d, p.next_ino as nat)
                } else {
                    t.listings[d]
                },
        ),
        ..p
    }
}

proof fn lemma_assigned(t: Tree, stored: Seq<StoredNode>, hidden: Set<Uid>)
    requires
        t.wf(),
        t.next_ino + stored.len() <= u64::MAX,
    ensures
        assigned(t, stored, hidden).wf(),
        assigned(t, stored, hidden).next_ino <= t.next_ino + stored.len(),
        assigned(t, stored, hidden).next_ino >= t.next_ino,
        assigned(t, stored, hidden).entries == t.entries,
        assigned(t, stored, hidden).listings == t.listings,
        assigned(t, stored, hidden).share_access == t.share_access,
        forall|u: Uid| #[trigger]
            assigned(t, stored, hidden).by_uid.contains_key(u) <==> t.by_uid.contains_key(u)
                || exists|i: int|
                0 <= i < stored.len() && (#[trigger] stored[i]).node.uid@ == u && !hidden.contains(
                    u,
                ),
        forall|u: Uid| #[trigger]
            t.by_uid.contains_key(u) ==> assigned(t, stored, hidden).by_uid[u] == t.by_uid[u],
    decreases stored.len(),
{
    if stored.len() > 0 {
        let rest = stored.drop_last();
        lemma_assigned(t, rest, hidden);
        let s = assigned(t, rest, hidden);
        let a = assigned(t, stored, hidden);
        let uid = stored.last().node.uid@;
        assert forall|u: Uid| #[trigger] a.by_uid.contains_key(u) <==> t.by_uid.contains_key(u)
            || exists|i: int|
            0 <= i < stored.len() && (#[trigger] stored[i]).node.uid@ == u && !hidden.contains(
                u,
            ) by {
            if exists|i: int|
                0 <= i < rest.len() && (#[trigger] rest[i]).node.uid@ == u && !hidden.contains(u) {
                let i = choose|i: int|
                    0 <= i < rest.len() && (#[trigger] rest[i]).node.uid@ == u && !hidden.contains(
                        u,
                    );
                assert(stored[i].node.uid@ == u);
            }
            if exists|i: int|
                0 <= i < stored.len() && (#[trigger] stored[i]).node.uid@ == u && !hidden.contains(
                    u,
                ) {
                let i = choose|i: int|
                    0 <= i < stored.len() && (#[trigger] stored[i]).node.uid@ == u
                        && !hidden.contains(u);
                if i < rest.len() {
                    assert(rest[i].node.uid@ == u);
                } else {
                    assert(u == uid);
                }
            }
            if u == uid && !hidden.contains(u) {
                assert(stored[stored.len() - 1].node.uid@ == u);
            }
            assert(s.by_uid.contains_key(u) <==> t.by_uid.contains_key(u) || exists|i: int|
                0 <= i < rest.len() && (#[trigger] rest[i]).node.uid@ == u && !hidden.contains(u));
        }
    }
}

proof fn lemma_restored(
    t: Tree,
    stored: Seq<StoredNode>,
    sizes: Map<Uid, u64>,
    hidden: Set<Uid>,
)
    requires
        t.wf(),
        forall|i: int|
            0 <= i < stored.len() && !hidden.contains((#[trigger] stored[i]).node.uid@)
                ==> t.by_uid.contains_key(stored[i].node.uid@),
    ensures
        (Tree { entries: restored(t, stored, sizes, hidden), ..t }).wf(),
    decreases stored.len(),
{
    if stored.len() > 0 {
        let rest = stored.drop_last();
        assert forall|i: int|
            0 <= i < rest.len() && !hidden.contains(
                (#[trigger] rest[i]).node.uid@,
            ) implies t.by_uid.contains_key(rest[i].node.uid@) by {
            assert(stored[i] == rest[i]);
        }
        lemma_restored(t, rest, sizes, hidden);
        assert(!hidden.contains(stored[stored.len() - 1].node.uid@) ==> t.by_uid.contains_key(
            stored[stored.len() - 1].node.uid@,
        ));
    }
}

fn access_of(state: &State, ino: u64) -> (r: Access)
    ensures
        r == effective_access(state@, ino, state.next_ino as nat),
{
    let mut at: u64 = ino;
    let mut fuel: u64 = state.next_ino;
    loop
        invariant
            effective_access(state@, ino, state.next_ino as nat) == effective_access(
                state@,
                at,
                fuel as nat,
            ),
        decreases fuel,
    {
        match state.entries.get(&at) {
            None => {
                return Access::Unknown;
            },
            Some(e) => {
                match state.share_access.get(&e.uid) {
                    Some(a) => {
                        return *a;
                    },
                    None => {},
                }
                if at == ROOT_INO {
                    return e.access;
                }
                if fuel == 0 {
                    return Access::Unknown;
                }
                at = e.parent;
                fuel = fuel - 1;
            },
        }
    }
}

/// Resolve the access of every entry for which it is not known.
pub fn hydrate_access(state: &mut State)
    requires
        old(state)@.wf(),
    ensures
        final(state)@ == with_access(old(state)@),
        final(state)@.wf(),
{
    let ghost before = state@;
    let mut resolved: Vec<(u64, Access)> = Vec::new();
    let mut ino: u64 = 0;
    let end: u64 = state.next_ino;
    while ino < end
        invariant
            ino <= end,
            end == state.next_ino,
            state@ == before,
            forall|k: int|
                0 <= k < resolved@.len() ==> (#[trigger] resolved@[k]).0 < ino
                    && before.entries.contains_key(resolved@[k].0) && before.entries[resolved@[k].0].access
                    == Access::Unknown && resolved@[k].1 == effective_access(
                    before,
                    resolved@[k].0,
                    before.next_ino as nat,
                ),
            forall|i: u64|
                #![trigger before.entries.contains_key(i)]
                before.entries.contains_key(i) && i < ino && before.entries[i].access
                    == Access::Unknown ==> exists|k: int|
                    0 <= k < resolved@.len() && (#[trigger] resolved@[k]).0 == i,
        decreases end - ino,
    {
        let unknown = match state.entries.get(&ino) {
            Some(e) => match e.access {
                Access::Unknown => true,
                _ => false,
            },
            None => false,
        };
        if unknown {
            let ghost had = resolved@;
            let access = access_of(state, ino);
            resolved.push((ino, access));
            proof {
                assert forall|i: u64|
                    #![trigger before.entries.contains_key(i)]
                    before.entries.contains_key(i) && i < ino + 1 && before.entries[i].access
                        == Access::Unknown implies exists|k: int|
                    0 <= k < resolved@.len() && (#[trigger] resolved@[k]).0 == i by {
                    if i < ino {
                        let k = choose|k: int| 0 <= k < had.len() && (#[trigger] had[k]).0 == i;
                        assert(resolved@[k].0 == i);
                    } else {
                        assert(resolved@[had.len() as int].0 == i);
                    }
                }
            }
        }
        ino = ino + 1;
    }
    let mut k: usize = 0;
    while k < resolved.len()
        invariant
            k <= resolved@.len(),
            before.wf(),
            forall|j: int|
                0 <= j < resolved@.len() ==> before.entries.contains_key(
                    (#[trigger] resolved@[j]).0,
                ) && before.entries[resolved@[j].0].access == Access::Unknown && resolved@[j].1
                    == effective_access(before, resolved@[j].0, before.next_ino as nat),
            state@ == (Tree { entries: state@.entries, ..before }),
            state@.entries.dom() == before.entries.dom(),
            forall|i: u64| #[trigger]
                before.entries.contains_key(i) ==> state@.entries[i] == (if exists|j: int|
                    0 <= j < k && (#[trigger] resolved@[j]).0 == i {
                    resolved_entry(before, i)
                } else {
                    before.entries[i]
                }),
        decreases resolved@.len() - k,
    {
        let (ino, access) = resolved[k];
        let ghost mid = state@;
        match state.entries.remove(&ino) {
            Some(mut e) => {
                e.access = access;
                state.entries.insert(ino, e);
            },
            None => {},
        }
        proof {
            assert(state@.entries.dom() =~= before.entries.dom());
            assert forall|i: u64| #[trigger]
                before.entries.contains_key(i) implies state@.entries[i] == (if exists|j: int|
                0 <= j < k + 1 && (#[trigger] resolved@[j]).0 == i {
                resolved_entry(before, i)
            } else {
                before.entries[i]
            }) by {
                if i == ino {
                    assert(resolved@[k as int].0 == i);
                } else {
                    if exists|j: int| 0 <= j < k + 1 && (#[trigger] resolved@[j]).0 == i {
                        let j = choose|j: int| 0 <= j < k + 1 && (#[trigger] resolved@[j]).0 == i;
                        assert(j < k);
                    }
                    if exists|j: int| 0 <= j < k && (#[trigger] resolved@[j]).0 == i {
                        let j = choose|j: int| 0 <= j < k && (#[trigger] resolved@[j]).0 == i;
                        assert(j < k + 1 && resolved@[j].0 == i);
                    }
                }
            }
        }
        k = k + 1;
    }
    proof {
        assert forall|i: u64| #[trigger] before.entries.contains_key(i) implies state@.entries[i]
            == resolved_entry(before, i) by {
            assert(i < end);
        }
        assert(state@.entries =~= with_access(before).entries);
        assert(state@ =~= with_access(before));
    }
}

fn kids_of(state: &State, dir: u64) -> (out: Vec<u64>)
    ensures
        out@ == kids(state@, dir, state.next_ino as nat),
{
    let mut out: Vec<u64> = Vec::new();
    let mut ino: u64 = 0;
    while ino < state.next_ino
        invariant
            ino <= state.next_ino,
            out@ == kids(state@, dir, ino as nat),
        decreases state.next_ino - ino,
    {
        let kid = ino != dir && match state.entries.get(&ino) {
            Some(e) => e.parent == dir && !e.node.trashed,
            None => false,
        };
        if kid {
            out.push(ino);
        }
        ino = ino + 1;
    }
    out
}

/// Rebuild the inode space from the persisted tree.
///
/// `pending_sizes` are the sizes that queued writes grew their files to: a file
/// stats as what its staged bytes already read as. `hidden` are nodes that a
/// queued trash withdrew; their rows stay, but they do not come back. A node
/// whose folder is not resident is adopted by nobody.
pub fn hydrate(
    state: &mut State,
    stored: &Vec<StoredNode>,
    pending_sizes: &UidMap<u64>,
    hidden: &UidSet,
)
    requires
        old(state)@.wf(),
        old(state).next_ino + stored@.len() <= u64::MAX,
    ensures
        final(state)@ == hydrated(old(state)@, stored@, pending_sizes@, hidden@),
        final(state)@.wf(),
{
    if stored.len() == 0 {
        return;
    }
    let ghost before = state@;
    let mut i: usize = 0;
    assert(stored@.take(0) =~= Seq::<StoredNode>::empty());
    while i < stored.len()
        invariant
            i <= stored@.len(),
            before.wf(),
            before.next_ino + stored@.len() <= u64::MAX,
            state@ == assigned(before, stored@.take(i as int), hidden@),
        decreases stored@.len() - i,
    {
        proof {
            lemma_assigned(before, stored@.take(i as int), hidden@);
            assert(stored@.take(i + 1).drop_last() =~= stored@.take(i as int));
        }
        let uid = &stored[i].node.uid;
        if !hidden.contains(uid) && !state.by_uid.contains_key(uid) {
            let ino = state.next_ino;
            state.next_ino = state.next_ino + 1;
            state.by_uid.insert(uid.clone(), ino);
            assert(state@ =~= assigned(before, stored@.take(i + 1), hidden@));
        }
        i = i + 1;
    }
    let ghost a = state@;
    proof {
        assert(stored@.take(i as int) =~= stored@);
        lemma_assigned(before, stored@, hidden@);
        assert forall|j: int|
            0 <= j < stored@.len() && !hidden@.contains(
                (#[trigger] stored@[j]).node.uid@,
            ) implies a.by_uid.contains_key(stored@[j].node.uid@) by {}
        lemma_restored(a, stored@, pending_sizes@, hidden@);
    }
    let mut listed: Vec<u64> = Vec::new();
    let mut j: usize = 0;
    assert(state@ =~= (Tree {
        entries: restored(a, stored@.take(0), pending_sizes@, hidden@),
        ..a
    }));
    while j < stored.len()
        invariant
            j <= stored@.len(),
            a.wf(),
            state@ == (Tree {
                entries: restored(a, stored@.take(j as int), pending_sizes@, hidden@),
                ..a
            }),
            forall|k: int|
                0 <= k < stored@.len() && !hidden@.contains((#[trigger] stored@[k]).node.uid@)
                    ==> a.by_uid.contains_key(stored@[k].node.uid@),
            forall|d: u64| #[trigger]
                listed@.contains(d) <==> was_listed(a, stored@.take(j as int), hidden@, d),
        decreases stored@.len() - j,
    {
        proof {
            assert(stored@.take(j + 1).drop_last() =~= stored@.take(j as int));
        }
        let ghost had = listed@;
        let sn = &stored[j];
        let hide = hidden.contains(&sn.node.uid);
        if !hide {
            match state.ino_of(&sn.node.uid) {
                None => {
                    assert(false);
                },
                Some(ino) => {
                    if sn.listed && sn.node.is_folder() {
                        listed.push(ino);
                    }
                    if ino != ROOT_INO {
                        let mut node = sn.node.clone();
                        match pending_sizes.get(&sn.node.uid) {
                            Some(len) => {
                                node.set_size(*len);
                            },
                            None => {},
                        }
                        let parent: u64 = match &sn.node.parent_uid {
                            Some(p) => match state.ino_of(p) {
                                Some(pi) => pi,
                                None => ORPHAN_INO,
                            },
                            None => ORPHAN_INO,
                        };
                        state.entries.insert(
                            ino,
                            Entry {
                                uid: sn.node.uid.clone(),
                                parent,
                                node,
                                access: Access::Unknown,
                                lookup_count: 1,
                                open_count: 0,
                                unlinked: false,
                            },
                        );
                    }
                },
            }
        }
        proof {
            let x = stored@[j as int];
            let part = stored@.take(j as int);
            let next = stored@.take(j + 1);
            assert(next =~= part.push(x));
            assert(state@ =~= (Tree {
                entries: restored(a, next, pending_sizes@, hidden@),
                ..a
            }));
            assert forall|d: u64| #[trigger] listed@.contains(d) <==> was_listed(
                a,
                next,
                hidden@,
                d,
            ) by {
                lemma_was_listed_push(a, part, x, hidden@, d);
                if had.contains(d) {
                    let k = choose|k: int| 0 <= k < had.len() && had[k] == d;
                    assert(listed@[k] == d);
                }
                if listed@.contains(d) {
                    let k = choose|k: int| 0 <= k < listed@.len() && listed@[k] == d;
                    if k < had.len() {
                        assert(had[k] == d);
                        assert(had.contains(d));
                    }
                }
                assert(had.contains(d) <==> was_listed(a, part, hidden@, d));
                if x.listed && x.node.kind is Folder && !hidden@.contains(x.node.uid@)
                    && a.by_uid[x.node.uid@] == d {
                    assert(listed@.last() == d);
                }
            }
        }
        j = j + 1;
    }
    assert(stored@.take(j as int) =~= stored@);
    assert(state@ =~= populated(before, stored@, pending_sizes@, hidden@));
    hydrate_access(state);
    let ghost p = with_access(populated(before, stored@, pending_sizes@, hidden@));
    assert(state@ == p);
    let mut k: usize = 0;
    while k < listed.len()
        invariant
            k <= listed@.len(),
            p.wf(),
            state@ == (Tree { listings: state@.listings, ..p }),
            state@.wf(),
            p.listings == before.listings,
            forall|d: u64| #[trigger]
                listed@.contains(d) ==> ROOT_INO <= d < p.next_ino,
            forall|d: u64| #[trigger]
                state@.listings.contains_key(d) <==> before.listings.contains_key(d)
                    || listed@.take(k as int).contains(d),
            forall|d: u64| #[trigger]
                state@.listings.contains_key(d) ==> state@.listings[d] == (if listed@.take(
                    k as int,
                ).contains(d) {
                    kids(p, d, p.next_ino as nat)
                } else {
                    before.listings[d]
                }),
        decreases listed@.len() - k,
    {
        let dir = listed[k];
        let found = kids_of(state, dir);
        proof {
            lemma_kids_same(p, state@, dir, p.next_ino as nat);
            assert(listed@.contains(dir));
            let part = listed@.take(k as int);
            let next = listed@.take(k + 1);
            assert(next =~= part.push(dir));
            assert forall|d: u64| #[trigger] next.contains(d) <==> part.contains(d) || d == dir by {
                if part.contains(d) {
                    let x = choose|x: int| 0 <= x < part.len() && part[x] == d;
                    assert(next[x] == d);
                }
                if d == dir {
                    assert(next[k as int] == d);
                }
                if next.contains(d) {
                    let x = choose|x: int| 0 <= x < next.len() && next[x] == d;
                    if x < k {
                        assert(part[x] == d);
                    }
                }
            }
        }
        state.set_listing(dir, found);
        k = k + 1;
    }
    proof {
        assert(listed@.take(k as int) =~= listed@);
        assert(state@.listings =~= hydrated(
            before,
            stored@,
            pending_sizes@,
            hidden@,
        ).listings) by {
            assert forall|d: u64| was_listed(a, stored@, hidden@, d) == was_listed(
                p,
                stored@,
                hidden@,
                d,
            ) by {
                assert(a.by_uid == p.by_uid);
                if was_listed(a, stored@, hidden@, d) {
                    let x = choose|x: int|
                        0 <= x < stored@.len() && (#[trigger] stored@[x]).listed
                            && stored@[x].node.kind is Folder && !hidden@.contains(
                            stored@[x].node.uid@,
                        ) && a.by_uid[stored@[x].node.uid@] == d;
                    assert(stored@[x].listed);
                }
            }
            assert forall|d: u64| #[trigger] state@.listings.contains_key(d)
                <==> before.listings.contains_key(d) || was_listed(p, stored@, hidden@, d) by {
                assert(listed@.contains(d) <==> was_listed(a, stored@, hidden@, d));
            }
            assert forall|d: u64| #[trigger] state@.listings.contains_key(d) implies state@.listings[d]
                == hydrated(before, stored@, pending_sizes@, hidden@).listings[d] by {
                assert(listed@.contains(d) <==> was_listed(a, stored@, hidden@, d));
            }
        }
        assert(state@ =~= hydrated(before, stored@, pending_sizes@, hidden@));
    }
}

proof fn lemma_kids_same(a: Tree, b: Tree, dir: u64, upto: nat)
    requires
        a.entries == b.entries,
    ensures
        kids(a, dir, upto) == kids(b, dir, upto),
    decreases upto,
{
    if upto > 0 {
        lemma_kids_same(a, b, dir, (upto - 1) as nat);
    }
}

proof fn lemma_was_listed_push(
    t: Tree,
    part: Seq<StoredNode>,
    x: StoredNode,
    hidden: Set<Uid>,
    d: u64,
)
    ensures
        was_listed(t, part.push(x), hidden, d) == (was_listed(t, part, hidden, d) || (x.listed
            && x.node.kind is Folder && !hidden.contains(x.node.uid@) && t.by_uid[x.node.uid@]
            == d)),
{
    let all = part.push(x);
    if was_listed(t, all, hidden, d) {
        let i = choose|i: int|
            0 <= i < all.len() && (#[trigger] all[i]).listed && all[i].node.kind is Folder
                && !hidden.contains(all[i].node.uid@) && t.by_uid[all[i].node.uid@] == d;
        if i < part.len() {
            assert(part[i].listed);
        }
    }
    if was_listed(t, part, hidden, d) {
        let i = choose|i: int|
            0 <= i < part.len() && (#[trigger] part[i]).listed && part[i].node.kind is Folder
                && !hidden.contains(part[i].node.uid@) && t.by_uid[part[i].node.uid@] == d;
        assert(all[i].listed);
    }
    if x.listed && x.node.kind is Folder && !hidden.contains(x.node.uid@) && t.by_uid[x.node.uid@]
        == d {
        assert(all[part.len() as int].listed);
    }
}

proof fn lemma_kids(t: Tree, dir: u64, upto: nat)
    requires
        upto <= t.next_ino,
    ensures
        forall|ino: u64| #[trigger]
            kids(t, dir, upto).contains(ino) <==> ino < upto && is_kid(t, ino, dir),
        kids(t, dir, upto).no_duplicates(),
    decreases upto,
{
    if upto > 0 {
        lemma_kids(t, dir, (upto - 1) as nat);
        let rest = kids(t, dir, (upto - 1) as nat);
        let all = kids(t, dir, upto);
        let last = (upto - 1) as u64;
        assert forall|ino: u64| #[trigger] all.contains(ino) <==> ino < upto && is_kid(
            t,
            ino,
            dir,
        ) by {
            if rest.contains(ino) {
                let i = choose|i: int| 0 <= i < rest.len() && rest[i] == ino;
                assert(all[i] == ino);
            }
            if all.contains(ino) {
                let i = choose|i: int| 0 <= i < all.len() && all[i] == ino;
                if i < rest.len() {
                    assert(rest[i] == ino);
                    assert(rest.contains(ino));
                }
            }
            if ino == last && is_kid(t, ino, dir) {
                assert(all.last() == ino);
            }
        }
        assert(!rest.contains(last));
        assert forall|i: int, j: int|
            0 <= i < all.len() && 0 <= j < all.len() && i != j implies all[i] != all[j] by {
            if i < rest.len() {
                assert(rest.contains(rest[i]));
            }
            if j < rest.len() {
                assert(rest.contains(rest[j]));
            }
        }
    }
}

/// A rebuilt listing never holds the folder itself, a node in the trash, a node
/// twice, or a node whose folder is not resident.
pub proof fn law_rebuilt_listings_are_sound(
    t: Tree,
    stored: Seq<StoredNode>,
    sizes: Map<Uid, u64>,
    hidden: Set<Uid>,
    dir: u64,
    ino: u64,
)
    requires
        t.wf(),
        t.next_ino + stored.len() <= u64::MAX,
        was_listed(hydrated(t, stored, sizes, hidden), stored, hidden, dir),
        hydrated(t, stored, sizes, hidden).listings[dir].contains(ino),
    ensures
        ino != dir,
        hydrated(t, stored, sizes, hidden).entries.contains_key(ino),
        !hydrated(t, stored, sizes, hidden).entries[ino].node.trashed,
        hydrated(t, stored, sizes, hidden).entries[ino].parent == dir,
        dir != ORPHAN_INO,
        hydrated(t, stored, sizes, hidden).listings[dir].no_duplicates(),
{
    let h = hydrated(t, stored, sizes, hidden);
    let p = with_access(populated(t, stored, sizes, hidden));
    lemma_assigned(t, stored, hidden);
    let i = choose|i: int|
        0 <= i < stored.len() && (#[trigger] stored[i]).listed && stored[i].node.kind is Folder
            && !hidden.contains(stored[i].node.uid@) && h.by_uid[stored[i].node.uid@] == dir;
    assert(stored[i].listed);
    assert(was_listed(p, stored, hidden, dir));
    lemma_kids(p, dir, p.next_ino as nat);
    assert(h.listings[dir] == kids(p, dir, p.next_ino as nat));
    assert(assigned(t, stored, hidden).by_uid.contains_key(stored[i].node.uid@));
}

/// A node that a queued trash withdrew does not come back: it gets no inode
/// unless it already had one.
pub proof fn law_hidden_nodes_stay_hidden(
    t: Tree,
    stored: Seq<StoredNode>,
    sizes: Map<Uid, u64>,
    hidden: Set<Uid>,
    uid: Uid,
)
    requires
        t.wf(),
        t.next_ino + stored.len() <= u64::MAX,
        hidden.contains(uid),
        !t.by_uid.contains_key(uid),
    ensures
        !hydrated(t, stored, sizes, hidden).by_uid.contains_key(uid),
        !hydrated(t, stored, sizes, hidden).owns_visible(uid),
{
    lemma_assigned(t, stored, hidden);
}

/// Inodes are stable: a uid that had one keeps it.
pub proof fn law_hydration_keeps_inodes(
    t: Tree,
    stored: Seq<StoredNode>,
    sizes: Map<Uid, u64>,
    hidden: Set<Uid>,
    uid: Uid,
)
    requires
        t.wf(),
        t.next_ino + stored.len() <= u64::MAX,
        t.by_uid.contains_key(uid),
    ensures
        hydrated(t, stored, sizes, hidden).by_uid.contains_key(uid),
        hydrated(t, stored, sizes, hidden).by_uid[uid] == t.by_uid[uid],
{
    lemma_assigned(t, stored, hidden);
}

/// A listing that was complete when it was stored is complete again: every resident child of
/// the folder that is not in the trash is in it.
pub proof fn law_rebuilt_listings_are_complete(
    t: Tree,
    stored: Seq<StoredNode>,
    sizes: Map<Uid, u64>,
    hidden: Set<Uid>,
    dir: u64,
    ino: u64,
)
    requires
        t.wf(),
        t.next_ino + stored.len() <= u64::MAX,
        was_listed(hydrated(t, stored, sizes, hidden), stored, hidden, dir),
        hydrated(t, stored, sizes, hidden).entries.contains_key(ino),
        hydrated(t, stored, sizes, hidden).entries[ino].parent == dir,
        !hydrated(t, stored, sizes, hidden).entries[ino].node.trashed,
        ino != dir,
        ino < hydrated(t, stored, sizes, hidden).next_ino,
    ensures
        hydrated(t, stored, sizes, hidden).listings.contains_key(dir),
        hydrated(t, stored, sizes, hidden).listings[dir].contains(ino),
{
    let p = with_access(populated(t, stored, sizes, hidden));
    let h = hydrated(t, stored, sizes, hidden);
    let i = choose|i: int|
        0 <= i < stored.len() && (#[trigger] stored[i]).listed && stored[i].node.kind is Folder
            && !hidden.contains(stored[i].node.uid@) && h.by_uid[stored[i].node.uid@] == dir;
    assert(p.by_uid[stored[i].node.uid@] == dir);
    assert(was_listed(p, stored, hidden, dir));
    lemma_kids(p, dir, p.next_ino as nat);
    assert(is_kid(p, ino, dir));
}

/// A node that was stored is resident again with the size of its queued write, below its
/// folder where that is known and away from the tree else, open nowhere; of two rows of one
/// node the later counts.
pub proof fn law_stored_nodes_are_resident_again(
    t: Tree,
    stored: Seq<StoredNode>,
    sizes: Map<Uid, u64>,
    hidden: Set<Uid>,
    i: int,
)
    requires
        t.wf(),
        t.next_ino + stored.len() <= u64::MAX,
        0 <= i < stored.len(),
        !hidden.contains(stored[i].node.uid@),
        forall|j: int|
            i < j < stored.len() ==> (#[trigger] stored[j]).node.uid@ != stored[i].node.uid@,
        hydrated(t, stored, sizes, hidden).by_uid[stored[i].node.uid@] != ROOT_INO,
    ensures
        ({
            let h = hydrated(t, stored, sizes, hidden);
            let node = stored[i].node;
            let ino = h.by_uid[node.uid@];
            &&& h.by_uid.contains_key(node.uid@) && h.entries.contains_key(ino)
            &&& h.entries[ino].node == node.sized(sizes) && h.entries[ino].uid == node.uid
            &&& h.entries[ino].open_count == 0 && !h.entries[ino].unlinked
            &&& node.parent_uid is Some && h.by_uid.contains_key((node.parent_uid->0)@)
                ==> h.entries[ino].parent == h.by_uid[(node.parent_uid->0)@]
            &&& node.parent_uid is None || !h.by_uid.contains_key((node.parent_uid->0)@)
                ==> h.entries[ino].parent == ORPHAN_INO
        }),
{
    lemma_assigned(t, stored, hidden);
    let a = assigned(t, stored, hidden);
    assert(a.by_uid.contains_key(stored[i].node.uid@));
    assert forall|k: int|
        0 <= k < stored.len() && !hidden.contains(
            (#[trigger] stored[k]).node.uid@,
        ) implies a.by_uid.contains_key(stored[k].node.uid@) by {}
    lemma_last_row_is_restored(a, stored, sizes, hidden, i);
}

proof fn lemma_last_row_is_restored(
    t: Tree,
    stored: Seq<StoredNode>,
    sizes: Map<Uid, u64>,
    hidden: Set<Uid>,
    i: int,
)
    requires
        t.wf(),
        0 <= i < stored.len(),
        !hidden.contains(stored[i].node.uid@),
        t.by_uid[stored[i].node.uid@] != ROOT_INO,
        forall|k: int|
            0 <= k < stored.len() && !hidden.contains((#[trigger] stored[k]).node.uid@)
                ==> t.by_uid.contains_key(stored[k].node.uid@),
        forall|j: int|
            i < j < stored.len() ==> (#[trigger] stored[j]).node.uid@ != stored[i].node.uid@,
    ensures
        restored(t, stored, sizes, hidden).contains_key(t.by_uid[stored[i].node.uid@]),
        restored(t, stored, sizes, hidden)[t.by_uid[stored[i].node.uid@]] == restored_entry(
            t,
            stored[i].node,
            sizes,
        ),
    decreases stored.len(),
{
    let rest = stored.drop_last();
    if i < rest.len() {
        assert forall|k: int|
            0 <= k < rest.len() && !hidden.contains(
                (#[trigger] rest[k]).node.uid@,
            ) implies t.by_uid.contains_key(rest[k].node.uid@) by {
            assert(rest[k] == stored[k]);
        }
        assert forall|j: int| i < j < rest.len() implies (#[trigger] rest[j]).node.uid@
            != rest[i].node.uid@ by {
            assert(rest[j] == stored[j]);
        }
        assert(rest[i] == stored[i]);
        lemma_last_row_is_restored(t, rest, sizes, hidden, i);
        let last = stored[stored.len() - 1];
        assert(last == stored.last());
        assert(last.node.uid@ != stored[i].node.uid@);
        if !hidden.contains(last.node.uid@) {
            assert(t.by_uid.contains_key(last.node.uid@));
            assert(t.by_uid.contains_key(stored[i].node.uid@));
            assert(t.by_uid[last.node.uid@] != t.by_uid[stored[i].node.uid@]);
        }
    } else {
        assert(stored[i] == stored.last());
    }
}

/// What may be written has that from above: from the nearest share on the way up, or from
/// the root of the mount. A share decides for itself.
pub proof fn law_access_comes_from_above(t: Tree, ino: u64, fuel: nat) -> (way: Seq<u64>)
    ensures
        t.entries.contains_key(ino) && t.share_access.contains_key(t.entries[ino].uid@)
            ==> effective_access(t, ino, fuel) == t.share_access[t.entries[ino].uid@],
        effective_access(t, ino, fuel).can_write() ==> {
            let top = way.last();
            &&& leads_up(t, way, ino, top)
            &&& t.entries.contains_key(top)
            &&& t.share_access.contains_key(t.entries[top].uid@)
                ==> t.share_access[t.entries[top].uid@] == effective_access(t, ino, fuel)
            &&& !t.share_access.contains_key(t.entries[top].uid@) ==> top == ROOT_INO
                && t.entries[top].access == effective_access(t, ino, fuel)
            &&& forall|k: int|
                0 <= k < way.len() - 1 ==> !t.share_access.contains_key(
                    t.entries[#[trigger] way[k]].uid@,
                )
        },
    decreases fuel,
{
    if !t.entries.contains_key(ino) || t.share_access.contains_key(t.entries[ino].uid@) || ino
        == ROOT_INO || fuel == 0 {
        seq![ino]
    } else {
        let rest = law_access_comes_from_above(t, t.entries[ino].parent, (fuel - 1) as nat);
        let way = seq![ino] + rest;
        if effective_access(t, ino, fuel).can_write() {
            assert(way.last() == rest.last());
            assert forall|k: int| 0 <= k < way.len() - 1 implies t.entries.contains_key(
                #[trigger] way[k],
            ) && t.entries[way[k]].parent == way[k + 1] && !t.share_access.contains_key(
                t.entries[way[k]].uid@,
            ) by {
                if k > 0 {
                    assert(way[k] == rest[k - 1]);
                    assert(way[k + 1] == rest[k]);
                } else {
                    assert(way[1] == rest[0]);
                }
            }
        }
        way
    }
}

/// Resolving access changes nothing but the access that was not known.
pub proof fn law_known_access_stays(t: Tree, ino: u64)
    requires
        t.entries.contains_key(ino),
    ensures
        with_access(t).entries.contains_key(ino),
        !(t.entries[ino].access is Unknown) ==> with_access(t).entries[ino] == t.entries[ino],
        with_access(t).entries[ino] == (Entry {
            access: with_access(t).entries[ino].access,
            ..t.entries[ino]
        }),
        t.entries[ino].access is Unknown && t.share_access.contains_key(t.entries[ino].uid@)
            ==> with_access(t).entries[ino].access == t.share_access[t.entries[ino].uid@],
        with_access(t).listings == t.listings && with_access(t).by_uid == t.by_uid,
{
    if t.share_access.contains_key(t.entries[ino].uid@) {
        law_access_comes_from_above(t, ino, t.next_ino as nat);
    }
}

} // verus!

//! Folder listings: when one has to be fetched, how a fetched one is published,
//! and how names are looked up in it.

use crate::access::Access;
use crate::error::{CoreError, Errno, ErrorKind};
use crate::node::{apply_pending_sizes, node_visible, visible_in, Node, NodeKind};
use crate::paths::texts;
use crate::state::{
    law_downgrade_reaches_what_is_below, law_interned_is_placed, law_interned_nodes_are_all_placed,
    law_withdrawal_hides_what_is_below,
    lemma_without, without, State, Tree, ROOT_INO,
};
use crate::text::{concat2, same_text};
use crate::uid::{
    is_local_uid, is_own_or_virtual_uid, is_virtual_uid, same_uid, NodeUid, Uid,
};
use crate::uidmap::{UidMap, UidSet};
use vstd::prelude::*;

verus! {

/// One child of a captured listing. The synthetic directory's own state is not
/// captured: changing it never makes a capture stale.
pub struct RootListingChild {
    pub ino: u64,
    pub entry: Option<RootListingEntry>,
}

pub struct RootListingEntry {
    pub uid: NodeUid,
    pub name: String,
    pub parent: u64,
    pub trashed: bool,
    pub unlinked: bool,
}

/// The real children of a folder at one moment.
pub struct RootListingSnapshot {
    pub children: Vec<RootListingChild>,
}

/// What a captured child says.
#[verifier::ext_equal]
pub struct ChildView {
    pub ino: u64,
    pub entry: Option<(Uid, Seq<char>, u64, bool, bool)>,
}

impl View for RootListingChild {
    type V = ChildView;

    open spec fn view(&self) -> ChildView {
        ChildView {
            ino: self.ino,
            entry: match self.entry {
                Some(e) => Some((e.uid@, e.name@, e.parent, e.trashed, e.unlinked)),
                None => None,
            },
        }
    }
}

impl View for RootListingSnapshot {
    type V = Seq<ChildView>;

    open spec fn view(&self) -> Seq<ChildView> {
        self.children@.map_values(|c: RootListingChild| c@)
    }
}

/// What capturing `ino` records.
pub open spec fn child_of(t: Tree, ino: u64) -> ChildView {
    ChildView {
        ino,
        entry: if t.entries.contains_key(ino) && !t.entries[ino].uid@.is_virtual() {
            let e = t.entries[ino];
            Some((e.uid@, e.node.name@, e.parent, e.node.trashed, e.unlinked))
        } else {
            None
        },
    }
}

/// The capture of the listing of `parent`, where it is known.
pub open spec fn capture_of(t: Tree, parent: u64) -> Option<Seq<ChildView>> {
    if t.listings.contains_key(parent) {
        Some(t.listings[parent].map_values(|ino: u64| child_of(t, ino)))
    } else {
        None
    }
}

/// The names of the real children of a capture, in order.
pub open spec fn real_names_of(children: Seq<ChildView>) -> Seq<Seq<char>>
    decreases children.len(),
{
    if children.len() == 0 {
        seq![]
    } else {
        match children.last().entry {
            Some((_, name, _, _, _)) => real_names_of(children.drop_last()).push(name),
            None => real_names_of(children.drop_last()),
        }
    }
}

fn capture_child(state: &State, ino: u64) -> (r: RootListingChild)
    ensures
        r@ == child_of(state@, ino),
{
    match state.entries.get(&ino) {
        None => RootListingChild { ino, entry: None },
        Some(e) => {
            if is_virtual_uid(&e.uid) {
                RootListingChild { ino, entry: None }
            } else {
                RootListingChild {
                    ino,
                    entry: Some(
                        RootListingEntry {
                            uid: e.uid.clone(),
                            name: e.node.name.clone(),
                            parent: e.parent,
                            trashed: e.node.trashed,
                            unlinked: e.unlinked,
                        },
                    ),
                }
            }
        },
    }
}

fn same_child(a: &RootListingChild, b: &RootListingChild) -> (r: bool)
    ensures
        r == (a@ == b@),
{
    if a.ino != b.ino {
        return false;
    }
    match (&a.entry, &b.entry) {
        (None, None) => true,
        (Some(x), Some(y)) => same_uid(&x.uid, &y.uid) && x.name == y.name && x.parent == y.parent
            && x.trashed == y.trashed && x.unlinked == y.unlinked,
        _ => false,
    }
}

impl RootListingSnapshot {
    /// Capture the listing of `parent_ino`, or nothing where it is unknown.
    pub fn capture(state: &State, parent_ino: u64) -> (r: Option<Self>)
        ensures
            match r {
                Some(s) => capture_of(state@, parent_ino) == Some(s@),
                None => capture_of(state@, parent_ino) is None,
            },
    {
        match state.children.get(&parent_ino) {
            None => None,
            Some(kids) => {
                let mut children: Vec<RootListingChild> = Vec::new();
                let mut i: usize = 0;
                while i < kids.len()
                    invariant
                        i <= kids@.len(),
                        children@.len() == i,
                        forall|j: int|
                            0 <= j < i ==> (#[trigger] children@[j])@ == child_of(state@, kids@[j]),
                    decreases kids@.len() - i,
                {
                    children.push(capture_child(state, kids[i]));
                    i = i + 1;
                }
                let s = RootListingSnapshot { children };
                proof {
                    assert(state@.listings[parent_ino] == kids@);
                    assert(s@ =~= kids@.map_values(|ino: u64| child_of(state@, ino)));
                }
                Some(s)
            },
        }
    }

    /// The names of the real children, in order.
    pub fn real_names(&self) -> (r: Vec<String>)
        ensures
            crate::paths::texts(r@) == real_names_of(self@),
    {
        let mut r: Vec<String> = Vec::new();
        let mut i: usize = 0;
        assert(self@.take(0) =~= Seq::<ChildView>::empty());
        assert(crate::paths::texts(r@) =~= Seq::<Seq<char>>::empty());
        while i < self.children.len()
            invariant
                i <= self.children@.len(),
                self@.len() == self.children@.len(),
                crate::paths::texts(r@) == real_names_of(self@.take(i as int)),
            decreases self.children@.len() - i,
        {
            let ghost had = r@;
            assert(self@[i as int] == self.children@[i as int]@);
            assert(self@.take(i + 1).drop_last() =~= self@.take(i as int));
            match &self.children[i].entry {
                Some(e) => {
                    r.push(e.name.clone());
                    assert(crate::paths::texts(r@) =~= crate::paths::texts(had).push(e.name@));
                },
                None => {},
            }
            i = i + 1;
        }
        assert(self@.take(i as int) =~= self@);
        r
    }

    /// Whether the listing of `parent_ino` is still the one captured.
    pub fn is_current(&self, state: &State, parent_ino: u64) -> (r: bool)
        ensures
            r == (capture_of(state@, parent_ino) == Some(self@)),
    {
        match Self::capture(state, parent_ino) {
            None => false,
            Some(now) => {
                if now.children.len() != self.children.len() {
                    assert(now@.len() != self@.len());
                    return false;
                }
                let mut i: usize = 0;
                while i < now.children.len()
                    invariant
                        i <= now.children@.len(),
                        now.children@.len() == self.children@.len(),
                        capture_of(state@, parent_ino) == Some(now@),
                        forall|j: int| 0 <= j < i ==> now@[j] == self@[j],
                    decreases now.children@.len() - i,
                {
                    assert(now@[i as int] == now.children@[i as int]@);
                    assert(self@[i as int] == self.children@[i as int]@);
                    if !same_child(&now.children[i], &self.children[i]) {
                        assert(now@[i as int] != self@[i as int]);
                        return false;
                    }
                    i = i + 1;
                }
                assert(now@ =~= self@);
                true
            },
        }
    }
}

/// Capture a listing that was found resident. Where it is not any more, the caller is to
/// try again.
pub fn resident_root_listing_snapshot(state: &State, ino: u64) -> (r: Result<
    RootListingSnapshot,
    Errno,
>)
    ensures
        match r {
            Ok(snapshot) => capture_of(state@, ino) == Some(snapshot@),
            Err(e) => e == Errno::Again && capture_of(state@, ino) is None,
        },
{
    match RootListingSnapshot::capture(state, ino) {
        Some(snapshot) => Ok(snapshot),
        None => Err(Errno::Again),
    }
}

/// The synthetic directory as it is to be published.
pub struct VirtualRootPlan {
    pub node: Node,
    pub visible: bool,
}

/// Prepare the synthetic directory: it keeps what is persisted of it, sits below
/// the mounted root under `name`, and while a real name suppresses it is marked
/// as trashed.
pub fn prepare_virtual_root(
    previous: Option<Node>,
    primary_root: &NodeUid,
    name: String,
    visible: bool,
    now: i64,
) -> (r: VirtualRootPlan)
    ensures
        r.visible == visible,
        r.node.kind is Folder,
        r.node.name == name,
        r.node.parent_uid == Some(*primary_root),
        r.node.trashed == !visible,
        r.node.membership is None,
        match previous {
            Some(p) => r.node == (Node {
                parent_uid: r.node.parent_uid,
                name,
                kind: NodeKind::Folder,
                trashed: !visible,
                membership: None,
                ..p
            }),
            None => r.node.uid@.is_virtual() && r.node.creation_time == now
                && r.node.modification_time == now && !r.node.is_shared
                && !r.node.is_shared_publicly && r.node.album is None,
        },
{
    let mut node = match previous {
        Some(p) => p,
        None => virtual_node(primary_root.clone(), name.clone(), now),
    };
    node.parent_uid = Some(primary_root.clone());
    node.name = name;
    node.kind = NodeKind::Folder;
    node.trashed = !visible;
    node.membership = None;
    VirtualRootPlan { node, visible }
}

/// The synthetic directory that holds incoming shares.
pub fn virtual_node(root: NodeUid, name: String, now: i64) -> (r: Node)
    ensures
        r.uid@.is_virtual(),
        r.parent_uid == Some(root),
        r.kind is Folder,
        r.name == name,
        r.creation_time == now,
        r.modification_time == now,
        !r.trashed,
        !r.is_shared,
        !r.is_shared_publicly,
        r.membership is None,
        r.album is None,
{
    Node {
        uid: crate::uid::shared_with_me_uid(),
        parent_uid: Some(root),
        kind: NodeKind::Folder,
        name,
        creation_time: now,
        modification_time: now,
        trashed: false,
        is_shared: false,
        is_shared_publicly: false,
        membership: None,
        album: None,
    }
}

/// The listing of `parent` with the synthetic dentry shown or not.
pub open spec fn with_virtual(t: Tree, parent: u64, virtual_ino: u64, visible: bool) -> Tree {
    let rest = without(t.listings[parent], virtual_ino);
    Tree {
        listings: t.listings.insert(
            parent,
            if visible {
                rest.push(virtual_ino)
            } else {
                rest
            },
        ),
        ..t
    }
}

/// Update the synthetic dentry, but only while the listing is the one that was
/// captured: a listing that was dropped meanwhile must not come back holding
/// the synthetic dentry alone. Returns whether it was updated.
pub fn reconcile_virtual_root_in_listing(
    state: &mut State,
    parent_ino: u64,
    snapshot: &RootListingSnapshot,
    virtual_ino: u64,
    visible: bool,
) -> (r: bool)
    ensures
        r == (capture_of(old(state)@, parent_ino) == Some(snapshot@)),
        final(state)@ == (if r {
            with_virtual(old(state)@, parent_ino, virtual_ino, visible)
        } else {
            old(state)@
        }),
        old(state)@.wf() ==> final(state)@.wf(),
{
    if !snapshot.is_current(state, parent_ino) {
        return false;
    }
    let ghost before = state@;
    match state.children.get(&parent_ino) {
        None => false,
        Some(kids) => {
            let mut rest: Vec<u64> = Vec::new();
            let mut i: usize = 0;
            assert(kids@.take(0) =~= Seq::<u64>::empty());
            while i < kids.len()
                invariant
                    i <= kids@.len(),
                    rest@ == without(kids@.take(i as int), virtual_ino),
                decreases kids@.len() - i,
            {
                assert(kids@.take(i + 1).drop_last() =~= kids@.take(i as int));
                if kids[i] != virtual_ino {
                    rest.push(kids[i]);
                }
                i = i + 1;
            }
            assert(kids@.take(i as int) =~= kids@);
            if visible {
                rest.push(virtual_ino);
            }
            state.set_listing(parent_ino, rest);
            assert(state@ =~= with_virtual(before, parent_ino, virtual_ino, visible));
            true
        },
    }
}

/// The tree after the synthetic directory was published.
pub open spec fn virtual_published(t: Tree, parent: u64, plan: VirtualRootPlan) -> Tree {
    let shared = Tree {
        share_access: t.share_access.insert(plan.node.uid@, Access::Viewer),
        ..t
    };
    with_virtual(
        shared.interned(parent, plan.node),
        parent,
        shared.ino_for(plan.node.uid@),
        plan.visible,
    )
}

/// Publish the synthetic directory in a listing that was captured.
///
/// `persist` makes the plan durable. Nothing is written and nothing changes when
/// the capture is stale, and nothing changes when the write fails.
pub fn publish_virtual_root_in_listing<F: FnOnce(&Node) -> bool>(
    persist: F,
    state: &mut State,
    parent_ino: u64,
    snapshot: &RootListingSnapshot,
    plan: VirtualRootPlan,
) -> (r: Result<(), Errno>)
    requires
        capture_of(old(state)@, parent_ino) == Some(snapshot@) ==> call_requires(
            persist,
            (&plan.node,),
        ),
        old(state).next_ino < u64::MAX,
        old(state)@.wf(),
        plan.node.uid@.is_virtual(),
    ensures
        match r {
            Ok(()) => {
                &&& capture_of(old(state)@, parent_ino) == Some(snapshot@)
                &&& call_ensures(persist, (&plan.node,), true)
                &&& final(state)@ == virtual_published(old(state)@, parent_ino, plan)
            },
            Err(Errno::Again) => capture_of(old(state)@, parent_ino) != Some(snapshot@)
                && final(state)@ == old(state)@,
            Err(Errno::Io) => capture_of(old(state)@, parent_ino) == Some(snapshot@)
                && call_ensures(persist, (&plan.node,), false) && final(state)@ == old(state)@,
            Err(_) => false,
        },
        final(state)@.wf(),
{
    if !snapshot.is_current(state, parent_ino) {
        return Err(Errno::Again);
    }
    if !persist(&plan.node) {
        return Err(Errno::Io);
    }
    let ghost before = state@;
    let ghost node = plan.node;
    state.share_access.insert(plan.node.uid.clone(), Access::Viewer);
    let ghost shared = state@;
    let visible = plan.visible;
    let virtual_ino = state.intern_mem(parent_ino, plan.node);
    proof {
        // Interning the synthetic directory changes nothing that a capture records.
        let now = before.listings[parent_ino];
        assert(state@.listings == before.listings);
        assert(shared =~= (Tree {
            share_access: before.share_access.insert(node.uid@, Access::Viewer),
            ..before
        }));
        assert forall|ino: u64| child_of(state@, ino) == child_of(before, ino) by {
            if ino == virtual_ino {
                assert(state@.entries[ino].uid@ == node.uid@) by {
                    if shared.by_uid.contains_key(node.uid@) && shared.entries.contains_key(ino) {
                        assert(shared.by_uid[shared.entries[ino].uid@] == ino);
                    }
                }
                if before.entries.contains_key(ino) {
                    assert(before.by_uid[before.entries[ino].uid@] == ino);
                    assert(before.by_uid.contains_key(node.uid@));
                    assert(before.entries[ino].uid@ == node.uid@);
                }
            }
        }
        assert(capture_of(state@, parent_ino)->0 =~= capture_of(before, parent_ino)->0);
    }
    let _ = reconcile_virtual_root_in_listing(state, parent_ino, snapshot, virtual_ino, visible);
    Ok(())
}

/// Whether this is the one listing that shows the synthetic directory.
pub fn is_primary_root_listing(
    primary: bool,
    folder_uid: &NodeUid,
    primary_root: &NodeUid,
) -> (r: bool)
    ensures
        r == (primary && folder_uid@ == primary_root@),
{
    primary && same_uid(folder_uid, primary_root)
}

/// Whether a listing without an event feed has to be fetched again: only while
/// online, and only once it is stale.
pub fn listing_needs_refresh(online: bool, stale: bool) -> (r: bool)
    ensures
        r == (online && stale),
{
    online && stale
}

/// Prefix of the key under which a shared folder's freshness is kept.
pub const SHARED_FOLDER_SYNCED_PREFIX: &'static str = "shared_folder_synced_ms:";

/// The key under which a shared folder's freshness is kept.
pub fn shared_folder_freshness_key(uid: &NodeUid) -> (r: String)
    ensures
        r@ == "shared_folder_synced_ms:"@ + uid@.text(),
{
    let text = uid.to_text();
    concat2(SHARED_FOLDER_SYNCED_PREFIX, text.as_str())
}

/// How the listing of a folder is to be had.
pub enum ChildrenPlan {
    /// There is no such inode.
    Missing,
    /// The folder is the synthetic one.
    SharedRoot,
    /// The listing is resident and good; the primary root's synthetic dentry
    /// still has to be reconciled.
    Resident { reconcile: bool },
    /// Try the persisted listing, then the remote.
    Load { folder: NodeUid, primary_root: bool, foreign: bool },
    /// Ask the remote: a foreign folder went stale.
    Enumerate { folder: NodeUid, primary_root: bool, foreign: bool },
}

/// Whether a folder is on somebody else's volume.
pub open spec fn is_foreign(uid: Uid, own_volume: Seq<char>) -> bool {
    uid.volume != own_volume && !uid.is_virtual() && !uid.is_local()
}

/// The plan for the listing of `ino`. `foreign_stale` says whether the persisted
/// freshness of the folder, if it is foreign, has run out.
pub open spec fn plan_for(
    t: Tree,
    ino: u64,
    primary: bool,
    root: Uid,
    online: bool,
    foreign_stale: bool,
) -> ChildrenPlan {
    if !t.entries.contains_key(ino) {
        ChildrenPlan::Missing
    } else {
        let folder = t.entries[ino].uid;
        let primary_root = primary && folder@ == root;
        let foreign = is_foreign(folder@, root.volume);
        let refresh = foreign && online && foreign_stale;
        if folder@.is_virtual() {
            ChildrenPlan::SharedRoot
        } else if t.listings.contains_key(ino) && !refresh {
            ChildrenPlan::Resident { reconcile: primary_root }
        } else if refresh {
            ChildrenPlan::Enumerate { folder, primary_root, foreign }
        } else {
            ChildrenPlan::Load { folder, primary_root, foreign }
        }
    }
}

/// Decide how the listing of `ino` is to be had.
pub fn plan_children(
    state: &State,
    ino: u64,
    primary: bool,
    primary_root_uid: &NodeUid,
    online: bool,
    foreign_stale: bool,
) -> (r: ChildrenPlan)
    ensures
        r == plan_for(state@, ino, primary, primary_root_uid@, online, foreign_stale),
{
    match state.entries.get(&ino) {
        None => ChildrenPlan::Missing,
        Some(e) => {
            let folder = e.uid.clone();
            if is_virtual_uid(&folder) {
                return ChildrenPlan::SharedRoot;
            }
            let cached = state.has_children(ino);
            let primary_root = is_primary_root_listing(primary, &folder, primary_root_uid);
            let foreign = !is_own_or_virtual_uid(&folder, primary_root_uid.volume_id.as_str())
                && !is_local_uid(&folder);
            let refresh = foreign && listing_needs_refresh(online, foreign_stale);
            if cached && !refresh {
                ChildrenPlan::Resident { reconcile: primary_root }
            } else if refresh {
                ChildrenPlan::Enumerate { folder, primary_root, foreign }
            } else {
                ChildrenPlan::Load { folder, primary_root, foreign }
            }
        },
    }
}

/// The nodes that a listing of `folder` shows, in order, with the sizes of
/// queued writes.
pub open spec fn shown(
    nodes: Seq<Node>,
    sizes: Map<Uid, u64>,
    folder: Uid,
    hidden: Set<Uid>,
    drop_virtual: bool,
) -> Seq<Node>
    decreases nodes.len(),
{
    if nodes.len() == 0 {
        seq![]
    } else {
        let rest = shown(nodes.drop_last(), sizes, folder, hidden, drop_virtual);
        let node = nodes.last().sized(sizes);
        if visible_in(node, folder, hidden) && !(drop_virtual && node.uid@.is_virtual()) {
            rest.push(node)
        } else {
            rest
        }
    }
}

/// Whether a file's real size is still to be fetched.
pub open spec fn size_missing(node: Node) -> bool {
    match node.kind {
        NodeKind::Folder => false,
        NodeKind::File { claimed_size, .. } => claimed_size is None,
    }
}

/// The uids of the nodes whose real size is still to be fetched, in order.
pub open spec fn sizes_missing(nodes: Seq<Node>) -> Seq<Uid>
    decreases nodes.len(),
{
    if nodes.len() == 0 {
        seq![]
    } else if size_missing(nodes.last()) {
        sizes_missing(nodes.drop_last()).push(nodes.last().uid@)
    } else {
        sizes_missing(nodes.drop_last())
    }
}

/// The identities that a vector of uids holds.
pub open spec fn uids(v: Seq<NodeUid>) -> Seq<Uid> {
    v.map_values(|u: NodeUid| u@)
}

/// Whether a file's real size is still to be fetched.
pub fn size_is_missing(node: &Node) -> (r: bool)
    ensures
        r == size_missing(*node),
{
    match &node.kind {
        NodeKind::Folder => false,
        NodeKind::File { claimed_size, .. } => claimed_size.is_none(),
    }
}

fn collect_missing(nodes: &Vec<Node>) -> (r: Vec<NodeUid>)
    ensures
        uids(r@) == sizes_missing(nodes@),
{
    let mut r: Vec<NodeUid> = Vec::new();
    let mut i: usize = 0;
    assert(nodes@.take(0) =~= Seq::<Node>::empty());
    assert(uids(r@) =~= Seq::<Uid>::empty());
    while i < nodes.len()
        invariant
            i <= nodes@.len(),
            uids(r@) == sizes_missing(nodes@.take(i as int)),
        decreases nodes@.len() - i,
    {
        assert(nodes@.take(i + 1).drop_last() =~= nodes@.take(i as int));
        if size_is_missing(&nodes[i]) {
            let ghost had = r@;
            r.push(nodes[i].uid.clone());
            assert(uids(r@) =~= uids(had).push(nodes@[i as int].uid@));
        }
        i = i + 1;
    }
    assert(nodes@.take(i as int) =~= nodes@);
    r
}

/// The nodes that a listing of `folder` shows.
pub fn visible_nodes(
    nodes: Vec<Node>,
    sizes: &UidMap<u64>,
    folder: &NodeUid,
    hidden: &UidSet,
    drop_virtual: bool,
) -> (r: Vec<Node>)
    ensures
        r@ == shown(nodes@, sizes@, folder@, hidden@, drop_virtual),
        r@.len() <= nodes@.len(),
{
    let ghost before = nodes@;
    let mut nodes = nodes;
    apply_pending_sizes(&mut nodes, sizes);
    let mut r: Vec<Node> = Vec::new();
    let mut i: usize = 0;
    assert(before.take(0) =~= Seq::<Node>::empty());
    while i < nodes.len()
        invariant
            i <= nodes@.len(),
            nodes@.len() == before.len(),
            forall|k: int| 0 <= k < before.len() ==> #[trigger] nodes@[k] == before[k].sized(sizes@),
            r@ == shown(before.take(i as int), sizes@, folder@, hidden@, drop_virtual),
            r@.len() <= i,
        decreases nodes@.len() - i,
    {
        assert(before.take(i + 1).drop_last() =~= before.take(i as int));
        let node = &nodes[i];
        assert(*node == before[i as int].sized(sizes@));
        if node_visible(node, folder, hidden) && !(drop_virtual && is_virtual_uid(&node.uid)) {
            r.push(node.clone());
        }
        i = i + 1;
    }
    assert(before.take(i as int) =~= before);
    r
}

/// The tree after `nodes` became the listing of `ino`.
pub open spec fn listed(t: Tree, ino: u64, nodes: Seq<Node>) -> Tree {
    let (s, inos) = t.interned_all(ino, nodes);
    Tree { listings: s.listings.insert(ino, inos), ..s }
}

/// Publish an enumerated listing of `ino`, unless somebody else already did.
/// Returns the nodes whose real size is still to be fetched, or `None` where
/// the listing was there already.
pub fn publish_listing(state: &mut State, ino: u64, nodes: Vec<Node>) -> (r: Option<Vec<NodeUid>>)
    requires
        old(state).next_ino + nodes@.len() <= u64::MAX,
        old(state)@.wf(),
        ino < old(state).next_ino,
    ensures
        match r {
            None => old(state)@.listings.contains_key(ino) && final(state)@ == old(state)@,
            Some(missing) => !old(state)@.listings.contains_key(ino) && final(state)@ == listed(
                old(state)@,
                ino,
                nodes@,
            ) && uids(missing@) == sizes_missing(nodes@),
        },
        final(state)@.wf(),
{
    if state.has_children(ino) {
        return None;
    }
    let missing = collect_missing(&nodes);
    proof {
        lemma_interned_all(state@, ino, nodes@);
    }
    let inos = state.intern_batch(ino, nodes);
    state.set_listing(ino, inos);
    Some(missing)
}

proof fn lemma_interned_all(t: Tree, parent: u64, nodes: Seq<Node>)
    requires
        t.next_ino + nodes.len() <= u64::MAX,
    ensures
        t.interned_all(parent, nodes).0.next_ino >= t.next_ino,
        t.interned_all(parent, nodes).0.next_ino <= t.next_ino + nodes.len(),
        t.interned_all(parent, nodes).0.listings == t.listings,
        t.interned_all(parent, nodes).1.len() == nodes.len(),
    decreases nodes.len(),
{
    if nodes.len() > 0 {
        lemma_interned_all(t, parent, nodes.drop_last());
    }
}

/// Every node of a published listing is found under the inode that the listing
/// gives it, below the folder.
pub proof fn law_published_nodes_are_placed(t: Tree, ino: u64, nodes: Seq<Node>, i: int)
    requires
        t.wf(),
        t.next_ino + nodes.len() <= u64::MAX,
        0 <= i < nodes.len(),
    ensures
        listed(t, ino, nodes).listings[ino].len() == nodes.len(),
        listed(t, ino, nodes).by_uid.contains_key(nodes[i].uid@),
        listed(t, ino, nodes).by_uid[nodes[i].uid@] == listed(t, ino, nodes).listings[ino][i],
        listed(t, ino, nodes).entries.contains_key(listed(t, ino, nodes).listings[ino][i]),
        listed(t, ino, nodes).entries[listed(t, ino, nodes).listings[ino][i]].parent == ino,
{
    lemma_placed(t, ino, nodes, i);
    lemma_interned_all(t, ino, nodes);
}

proof fn lemma_placed(t: Tree, parent: u64, nodes: Seq<Node>, i: int)
    requires
        t.wf(),
        t.next_ino + nodes.len() <= u64::MAX,
        0 <= i < nodes.len(),
    ensures
        t.interned_all(parent, nodes).0.wf(),
        t.interned_all(parent, nodes).0.by_uid.contains_key(nodes[i].uid@),
        t.interned_all(parent, nodes).0.by_uid[nodes[i].uid@] == t.interned_all(parent, nodes).1[i],
        t.interned_all(parent, nodes).0.entries.contains_key(t.interned_all(parent, nodes).1[i]),
        t.interned_all(parent, nodes).0.entries[t.interned_all(parent, nodes).1[i]].parent
            == parent,
    decreases nodes.len(),
{
    let rest = nodes.drop_last();
    let (s, inos) = t.interned_all(parent, rest);
    lemma_interned_all(t, parent, rest);
    lemma_interned_all_wf(t, parent, rest);
    crate::state::law_intern_keeps_wf(s, parent, nodes.last());
    if i < rest.len() {
        lemma_placed(t, parent, rest, i);
        assert(nodes[i] == rest[i]);
        assert(s.by_uid.contains_key(rest[i].uid@));
    }
}

proof fn lemma_interned_all_wf(t: Tree, parent: u64, nodes: Seq<Node>)
    requires
        t.wf(),
        t.next_ino + nodes.len() <= u64::MAX,
    ensures
        t.interned_all(parent, nodes).0.wf(),
    decreases nodes.len(),
{
    if nodes.len() > 0 {
        lemma_interned_all_wf(t, parent, nodes.drop_last());
        lemma_interned_all(t, parent, nodes.drop_last());
        crate::state::law_intern_keeps_wf(
            t.interned_all(parent, nodes.drop_last()).0,
            parent,
            nodes.last(),
        );
    }
}

/// A foreign listing as it is persisted: every node belongs to the folder that
/// was enumerated, whatever its own share says.
pub fn foreign_children(nodes: Vec<Node>, folder: &NodeUid) -> (r: Vec<Node>)
    ensures
        r@.len() == nodes@.len(),
        forall|i: int|
            0 <= i < nodes@.len() ==> #[trigger] r@[i] == (Node {
                parent_uid: Some(*folder),
                ..nodes@[i]
            }),
{
    let mut r: Vec<Node> = Vec::new();
    let mut i: usize = 0;
    while i < nodes.len()
        invariant
            i <= nodes@.len(),
            r@.len() == i,
            forall|j: int|
                0 <= j < i ==> #[trigger] r@[j] == (Node {
                    parent_uid: Some(*folder),
                    ..nodes@[j]
                }),
        decreases nodes@.len() - i,
    {
        let mut node = nodes[i].clone();
        node.parent_uid = Some(folder.clone());
        r.push(node);
        i = i + 1;
    }
    r
}

/// The tree after the subtrees of `removed` were withdrawn, in order.
pub open spec fn withdrawn_all(t: Tree, removed: Seq<NodeUid>) -> Tree
    decreases removed.len(),
{
    if removed.len() == 0 {
        t
    } else {
        withdrawn_all(t, removed.drop_last()).withdrawn(removed.last()@)
    }
}

/// Publish a foreign folder's listing after it was persisted: what is no longer
/// in it is withdrawn, what is in it replaces the old listing.
///
/// A listing that was on its way while access was lost is not published.
pub fn publish_foreign_listing(
    state: &mut State,
    ino: u64,
    removed: &Vec<NodeUid>,
    nodes: Vec<Node>,
    captured_generation: u64,
    generation: u64,
) -> (r: Result<Vec<NodeUid>, Errno>)
    requires
        old(state).next_ino + nodes@.len() <= u64::MAX,
        old(state)@.wf(),
        ino < old(state).next_ino,
    ensures
        match r {
            Err(e) => e == Errno::Again && captured_generation != generation && final(state)@
                == old(state)@,
            Ok(missing) => captured_generation == generation && final(state)@ == listed(
                withdrawn_all(old(state)@, removed@),
                ino,
                nodes@,
            ) && uids(missing@) == sizes_missing(nodes@),
        },
        final(state)@.wf(),
{
    if captured_generation != generation {
        return Err(Errno::Again);
    }
    let ghost before = state@;
    let mut i: usize = 0;
    assert(removed@.take(0) =~= Seq::<NodeUid>::empty());
    while i < removed.len()
        invariant
            i <= removed@.len(),
            state@ == withdrawn_all(before, removed@.take(i as int)),
            state@.wf(),
            state.next_ino == before.next_ino,
        decreases removed@.len() - i,
    {
        assert(removed@.take(i + 1).drop_last() =~= removed@.take(i as int));
        state.hide_foreign_subtree(&removed[i]);
        i = i + 1;
    }
    assert(removed@.take(i as int) =~= removed@);
    let missing = collect_missing(&nodes);
    proof {
        lemma_interned_all(state@, ino, nodes@);
    }
    let inos = state.intern_batch(ino, nodes);
    state.set_listing(ino, inos);
    Ok(missing)
}

/// The tree after an incoming share was placed below the synthetic directory.
pub open spec fn share_interned(t: Tree, parent: u64, node: Node, access: Access) -> Tree {
    (Tree { share_access: t.share_access.insert(node.uid@, access), ..t }).interned(parent, node)
}

/// The access of a share root: what was published for it, else read-only.
pub open spec fn share_access_of(access: Map<Uid, Access>, uid: Uid) -> Access {
    if access.contains_key(uid) {
        access[uid]
    } else {
        Access::Viewer
    }
}

/// The tree and the inodes after every share root was placed.
pub open spec fn shares_interned(
    t: Tree,
    parent: u64,
    nodes: Seq<Node>,
    access: Map<Uid, Access>,
) -> (Tree, Seq<u64>)
    decreases nodes.len(),
{
    if nodes.len() == 0 {
        (t, seq![])
    } else {
        let (s, inos) = shares_interned(t, parent, nodes.drop_last(), access);
        let node = nodes.last();
        (
            share_interned(s, parent, node, share_access_of(access, node.uid@)),
            inos.push(s.ino_for(node.uid@)),
        )
    }
}

/// The tree after the incoming shares became the listing of `ino`.
pub open spec fn shares_listed(
    t: Tree,
    ino: u64,
    nodes: Seq<Node>,
    access: Map<Uid, Access>,
) -> Tree {
    let (s, inos) = shares_interned(t, ino, nodes, access);
    Tree { listings: s.listings.insert(ino, inos), ..s }
}

fn intern_shares(
    state: &mut State,
    ino: u64,
    nodes: &Vec<Node>,
    access: &UidMap<Access>,
) -> (inos: Vec<u64>)
    requires
        old(state).next_ino + nodes@.len() <= u64::MAX,
        old(state)@.wf(),
    ensures
        final(state)@ == shares_interned(old(state)@, ino, nodes@, access@).0,
        inos@ == shares_interned(old(state)@, ino, nodes@, access@).1,
        final(state)@.wf(),
        final(state).next_ino >= old(state).next_ino,
{
    let ghost before = state@;
    let mut inos: Vec<u64> = Vec::new();
    let mut i: usize = 0;
    assert(nodes@.take(0) =~= Seq::<Node>::empty());
    while i < nodes.len()
        invariant
            i <= nodes@.len(),
            before.next_ino + nodes@.len() <= u64::MAX,
            before.next_ino <= state.next_ino <= before.next_ino + i,
            state@.wf(),
            state@ == shares_interned(before, ino, nodes@.take(i as int), access@).0,
            inos@ == shares_interned(before, ino, nodes@.take(i as int), access@).1,
        decreases nodes@.len() - i,
    {
        assert(nodes@.take(i + 1).drop_last() =~= nodes@.take(i as int));
        let node = nodes[i].clone();
        let a = match access.get(&node.uid) {
            Some(a) => *a,
            None => Access::Viewer,
        };
        let ghost mid = state@;
        state.share_access.insert(node.uid.clone(), a);
        assert(state@ =~= (Tree {
            share_access: mid.share_access.insert(node.uid@, a),
            ..mid
        }));
        let child = state.intern_mem(ino, node);
        inos.push(child);
        i = i + 1;
    }
    assert(nodes@.take(i as int) =~= nodes@);
    inos
}

fn copy_access(access: &UidMap<Access>) -> (r: UidMap<Access>)
    ensures
        r@ == access@,
{
    let mut r: UidMap<Access> = UidMap::new();
    let n = access.walk();
    let ghost keys = access.keys();
    let mut i: usize = 0;
    while i < n
        invariant
            i <= n,
            n == keys.len(),
            keys == access.keys(),
            forall|u: Uid| keys.contains(u) <==> #[trigger] access@.dom().contains(u),
            forall|u: Uid| #[trigger]
                r@.contains_key(u) ==> access@.contains_key(u) && r@[u] == access@[u],
            forall|j: int| 0 <= j < i ==> r@.contains_key(#[trigger] keys[j]),
        decreases n - i,
    {
        let (uid, a) = access.pair_at(i);
        r.insert(uid.clone(), *a);
        i = i + 1;
    }
    assert forall|u: Uid| access@.contains_key(u) implies r@.contains_key(u) by {
        assert(access@.dom().contains(u));
        let j = choose|j: int| 0 <= j < keys.len() && keys[j] == u;
        assert(r@.contains_key(keys[j]));
    }
    assert(r@ =~= access@);
    r
}

/// Publish the persisted incoming shares, unless their listing is resident. Each
/// keeps the access that the mount knows for it.
pub fn publish_persisted_shares(state: &mut State, ino: u64, nodes: Vec<Node>) -> (published: bool)
    requires
        old(state).next_ino + nodes@.len() <= u64::MAX,
        old(state)@.wf(),
        ino < old(state).next_ino,
    ensures
        published == !old(state)@.listings.contains_key(ino),
        final(state)@ == (if published {
            shares_listed(old(state)@, ino, nodes@, old(state)@.share_access)
        } else {
            old(state)@
        }),
        final(state)@.wf(),
{
    if state.has_children(ino) {
        return false;
    }
    let known = copy_access(&state.share_access);
    let inos = intern_shares(state, ino, &nodes, &known);
    state.set_listing(ino, inos);
    true
}

/// The tree after the dentries of revoked shares disappeared, in order.
pub open spec fn dentries_hidden(t: Tree, removed: Seq<NodeUid>) -> Tree
    decreases removed.len(),
{
    if removed.len() == 0 {
        t
    } else {
        dentries_hidden(t, removed.drop_last()).dentry_hidden(removed.last()@)
    }
}

/// Publish the incoming shares that were just enumerated and persisted: revoked
/// ones disappear, and each of the others gets the access that its current
/// membership proves.
pub fn publish_refreshed_shares(
    state: &mut State,
    ino: u64,
    removed: &Vec<NodeUid>,
    nodes: Vec<Node>,
    access: &UidMap<Access>,
)
    requires
        old(state).next_ino + nodes@.len() <= u64::MAX,
        old(state)@.wf(),
        ino < old(state).next_ino,
    ensures
        final(state)@ == shares_listed(
            dentries_hidden(old(state)@, removed@),
            ino,
            nodes@,
            access@,
        ),
        final(state)@.wf(),
{
    let ghost before = state@;
    let mut i: usize = 0;
    assert(removed@.take(0) =~= Seq::<NodeUid>::empty());
    while i < removed.len()
        invariant
            i <= removed@.len(),
            state@ == dentries_hidden(before, removed@.take(i as int)),
            state@.wf(),
            state.next_ino == before.next_ino,
        decreases removed@.len() - i,
    {
        assert(removed@.take(i + 1).drop_last() =~= removed@.take(i as int));
        state.hide_shared_root(&removed[i]);
        i = i + 1;
    }
    assert(removed@.take(i as int) =~= removed@);
    let inos = intern_shares(state, ino, &nodes, access);
    state.set_listing(ino, inos);
}

/// The tree after each of `uids` was made read-only, in order.
pub open spec fn all_downgraded(t: Tree, uids: Seq<NodeUid>) -> Tree
    decreases uids.len(),
{
    if uids.len() == 0 {
        t
    } else {
        all_downgraded(t, uids.drop_last()).downgraded(uids.last()@)
    }
}

/// Fail closed: the shares could not be persisted, so every accepted one becomes
/// read-only.
pub fn reject_refreshed_shares(state: &mut State, accepted: &Vec<NodeUid>) -> (r: Errno)
    requires
        old(state)@.wf(),
    ensures
        r == Errno::Io,
        final(state)@ == all_downgraded(old(state)@, accepted@),
        final(state)@.wf(),
{
    let ghost before = state@;
    let mut i: usize = 0;
    assert(accepted@.take(0) =~= Seq::<NodeUid>::empty());
    while i < accepted.len()
        invariant
            i <= accepted@.len(),
            state@ == all_downgraded(before, accepted@.take(i as int)),
            state@.wf(),
        decreases accepted@.len() - i,
    {
        assert(accepted@.take(i + 1).drop_last() =~= accepted@.take(i as int));
        let _ = state.downgrade_shared_subtree(&accepted[i]);
        i = i + 1;
    }
    assert(accepted@.take(i as int) =~= accepted@);
    Errno::Io
}

/// The position of the first child of `parent` that is called `name`.
pub open spec fn child_named(t: Tree, kids: Seq<u64>, name: Seq<char>) -> Option<u64>
    decreases kids.len(),
{
    if kids.len() == 0 {
        None
    } else if t.entries.contains_key(kids[0]) && t.entries[kids[0]].node.name@ == name {
        Some(kids[0])
    } else {
        child_named(t, kids.skip(1), name)
    }
}

/// Find `name` in the listing of `parent`, which is resident. The first child of
/// that name wins.
pub fn lookup_child(state: &State, parent: u64, name: &str) -> (r: Result<(u64, NodeUid), Errno>)
    ensures
        match r {
            Ok((ino, uid)) => state@.listings.contains_key(parent) && child_named(
                state@,
                state@.listings[parent],
                name@,
            ) == Some(ino) && state@.entries.contains_key(ino) && uid == state@.entries[ino].uid,
            Err(e) => e == Errno::Noent && (!state@.listings.contains_key(parent) || child_named(
                state@,
                state@.listings[parent],
                name@,
            ) is None),
        },
{
    match state.children.get(&parent) {
        None => Err(Errno::Noent),
        Some(kids) => {
            let mut i: usize = 0;
            assert(state@.listings[parent] == kids@);
            assert(kids@.skip(0) =~= kids@);
            while i < kids.len()
                invariant
                    i <= kids@.len(),
                    state@.listings.contains_key(parent),
                    state@.listings[parent] == kids@,
                    child_named(state@, kids@, name@) == child_named(
                        state@,
                        kids@.skip(i as int),
                        name@,
                    ),
                decreases kids@.len() - i,
            {
                assert(kids@.skip(i as int)[0] == kids@[i as int]);
                assert(kids@.skip(i as int).skip(1) =~= kids@.skip(i + 1));
                match state.entries.get(&kids[i]) {
                    Some(e) => {
                        if same_text(e.node.name.as_str(), name) {
                            return Ok((kids[i], e.uid.clone()));
                        }
                    },
                    None => {},
                }
                i = i + 1;
            }
            Err(Errno::Noent)
        },
    }
}

/// How far a walk gets over the listings that are resident.
pub enum Walk {
    Done(u64),
    /// This folder has to be listed before the walk can go on.
    List(u64),
    Failed(Errno),
}

/// How far a walk along `names` from `ino` gets over the listings that are resident.
pub open spec fn walked(t: Tree, ino: u64, names: Seq<Seq<char>>) -> Walk
    decreases names.len(),
{
    if names.len() == 0 {
        Walk::Done(ino)
    } else if names[0] == "/"@ || names[0] == "."@ {
        walked(t, ino, names.skip(1))
    } else if names[0] == ".."@ {
        Walk::Failed(Errno::Inval)
    } else if !t.listings.contains_key(ino) {
        Walk::List(ino)
    } else {
        match child_named(t, t.listings[ino], names[0]) {
            None => Walk::Failed(Errno::Noent),
            Some(child) => walked(t, child, names.skip(1)),
        }
    }
}

/// The next folder whose listing a walk along `parts` needs, or where it ends.
pub enum WalkStep {
    Done { ino: u64, uid: NodeUid },
    /// This folder has to be listed before the walk can go on.
    List { ino: u64 },
    Failed(Errno),
}

/// Walk along the components of a mount-relative path from the root. A leading
/// separator and `.` are ignored; `..` is refused. Stops at the first folder
/// whose listing is not resident.
pub fn resolve_path(state: &State, parts: &Vec<String>) -> (r: WalkStep)
    ensures
        if !state@.entries.contains_key(ROOT_INO) {
            r == WalkStep::Failed(Errno::Noent)
        } else {
            match walked(state@, ROOT_INO, texts(parts@)) {
                Walk::Done(at) => r matches WalkStep::Done { ino, uid } && ino == at
                    && state@.entries.contains_key(at) && uid == state@.entries[at].uid,
                Walk::List(at) => r == (WalkStep::List { ino: at }),
                Walk::Failed(e) => r == WalkStep::Failed(e),
            }
        },
{
    let mut uid = match state.entries.get(&ROOT_INO) {
        None => {
            return WalkStep::Failed(Errno::Noent);
        },
        Some(e) => e.uid.clone(),
    };
    let ghost all = texts(parts@);
    let mut ino: u64 = ROOT_INO;
    let mut i: usize = 0;
    assert(all.skip(0) =~= all);
    while i < parts.len()
        invariant
            i <= parts@.len(),
            all == texts(parts@),
            all.len() == parts@.len(),
            state@.entries.contains_key(ROOT_INO),
            state@.entries.contains_key(ino),
            uid == state@.entries[ino].uid,
            walked(state@, ROOT_INO, all) == walked(state@, ino, all.skip(i as int)),
        decreases parts@.len() - i,
    {
        let name = parts[i].as_str();
        proof {
            assert(all[i as int] == parts@[i as int]@);
            assert(all.skip(i as int)[0] == all[i as int]);
            assert(all.skip(i as int).skip(1) =~= all.skip(i + 1));
        }
        if same_text(name, "/") || same_text(name, ".") {
            i = i + 1;
            continue;
        }
        if same_text(name, "..") {
            return WalkStep::Failed(Errno::Inval);
        }
        if !state.has_children(ino) {
            return WalkStep::List { ino };
        }
        match lookup_child(state, ino, name) {
            Err(e) => {
                return WalkStep::Failed(e);
            },
            Ok((child, child_uid)) => {
                ino = child;
                uid = child_uid;
            },
        }
        i = i + 1;
    }
    assert(all.skip(i as int) =~= Seq::<Seq<char>>::empty());
    WalkStep::Done { ino, uid }
}

/// A walk that ends at a node, or at a folder to be listed, goes on from there as the
/// walk along the rest of the path would.
pub proof fn law_walks_compose(t: Tree, from: u64, a: Seq<Seq<char>>, b: Seq<Seq<char>>)
    ensures
        walked(t, from, a + b) == (match walked(t, from, a) {
            Walk::Done(at) => walked(t, at, b),
            other => other,
        }),
    decreases a.len(),
{
    if a.len() == 0 {
        assert(a + b =~= b);
    } else {
        assert((a + b)[0] == a[0]);
        assert((a + b).skip(1) =~= a.skip(1) + b);
        if a[0] == "/"@ || a[0] == "."@ {
            law_walks_compose(t, from, a.skip(1), b);
        } else if a[0] != ".."@ && t.listings.contains_key(from) {
            match child_named(t, t.listings[from], a[0]) {
                None => {},
                Some(c) => {
                    law_walks_compose(t, c, a.skip(1), b);
                },
            }
        }
    }
}

/// The folder that a change to `ino` concerns: the parent its node names, else
/// the folder it is resident in. `shown` is the path as it is printed.
pub fn source_parent_uid(state: &State, ino: u64, shown: &str) -> (r: Result<NodeUid, CoreError>)
    ensures
        match r {
            Ok(uid) => state@.entries.contains_key(ino) && match state@.entries[ino].node.parent_uid {
                Some(p) => uid == p,
                None => state@.entries.contains_key(state@.entries[ino].parent) && uid
                    == state@.entries[state@.entries[ino].parent].uid,
            },
            Err(e) => if !state@.entries.contains_key(ino) {
                e.reads(ErrorKind::NotFound, "could not resolve "@ + shown@)
            } else {
                &&& state@.entries[ino].node.parent_uid is None
                &&& !state@.entries.contains_key(state@.entries[ino].parent)
                &&& e.reads(ErrorKind::Invalid, "the mount root cannot be mutated"@)
            },
        },
{
    match state.entries.get(&ino) {
        None => Err(CoreError::not_found(concat2("could not resolve ", shown))),
        Some(e) => {
            match &e.node.parent_uid {
                Some(p) => Ok(p.clone()),
                None => match state.entries.get(&e.parent) {
                    Some(parent) => Ok(parent.uid.clone()),
                    None => Err(
                        CoreError::invalid("the mount root cannot be mutated".to_owned()),
                    ),
                },
            }
        },
    }
}

/// The names of a listing are those of its real children, in order.
pub proof fn law_real_names_are_the_real_children(children: Seq<ChildView>)
    ensures
        real_names_of(children) == children.filter(|c: ChildView| c.entry is Some).map_values(
            |c: ChildView| (c.entry->0).1,
        ),
    decreases children.len(),
{
    reveal(Seq::filter);
    if children.len() > 0 {
        law_real_names_are_the_real_children(children.drop_last());
    }
    assert(real_names_of(children) =~= children.filter(
        |c: ChildView| c.entry is Some,
    ).map_values(|c: ChildView| (c.entry->0).1));
}

/// A snapshot of a listing is current only while the listing holds the same children under
/// the same names, and none of them was moved, unlinked or trashed meanwhile.
pub proof fn law_snapshots_notice_changes(t: Tree, s: Tree, parent: u64, i: int)
    requires
        capture_of(t, parent) is Some,
        capture_of(t, parent) == capture_of(s, parent),
    ensures
        t.listings.contains_key(parent) && s.listings.contains_key(parent),
        t.listings[parent] == s.listings[parent],
        0 <= i < t.listings[parent].len() ==> {
            let k = t.listings[parent][i];
            t.entries.contains_key(k) && !t.entries[k].uid@.is_virtual() ==> {
                &&& s.entries.contains_key(k)
                &&& s.entries[k].uid@ == t.entries[k].uid@
                &&& s.entries[k].node.name@ == t.entries[k].node.name@
                &&& s.entries[k].parent == t.entries[k].parent
                &&& s.entries[k].node.trashed == t.entries[k].node.trashed
                &&& s.entries[k].unlinked == t.entries[k].unlinked
            }
        },
{
    let a = t.listings[parent].map_values(|ino: u64| child_of(t, ino));
    let b = s.listings[parent].map_values(|ino: u64| child_of(s, ino));
    assert(a == b);
    assert(t.listings[parent].len() == a.len() && s.listings[parent].len() == b.len());
    assert forall|k: int| 0 <= k < a.len() implies t.listings[parent][k] == s.listings[parent][k] by {
        assert(a[k].ino == t.listings[parent][k]);
        assert(b[k].ino == s.listings[parent][k]);
    }
    assert(t.listings[parent] =~= s.listings[parent]);
    if 0 <= i < a.len() {
        assert(a[i] == child_of(t, t.listings[parent][i]));
        assert(b[i] == child_of(s, s.listings[parent][i]));
    }
}

/// The synthetic folder is in the listing of its parent just where it is to be seen, and then
/// once, at the end; every other child stays, and so does everything else.
pub proof fn law_synthetic_folder_is_listed_once(
    t: Tree,
    parent: u64,
    virtual_ino: u64,
    visible: bool,
    other: u64,
)
    requires
        t.listings.contains_key(parent),
        other != virtual_ino,
    ensures
        ({
            let s = with_virtual(t, parent, virtual_ino, visible);
            &&& s.listings.contains_key(parent)
            &&& s.listings[parent].contains(virtual_ino) <==> visible
            &&& visible ==> s.listings[parent].last() == virtual_ino
                && !s.listings[parent].drop_last().contains(virtual_ino)
            &&& s.listings[parent].contains(other) <==> t.listings[parent].contains(other)
            &&& forall|d: u64|
                d != parent ==> (#[trigger] s.listings.contains_key(d) <==> t.listings.contains_key(
                    d,
                )) && (t.listings.contains_key(d) ==> s.listings[d] == t.listings[d])
            &&& s.entries == t.entries && s.by_uid == t.by_uid && s.share_access == t.share_access
        }),
{
    let rest = without(t.listings[parent], virtual_ino);
    lemma_without(t.listings[parent], virtual_ino);
    let with = rest.push(virtual_ino);
    assert(with[rest.len() as int] == virtual_ino);
    assert(with.drop_last() =~= rest);
    if rest.contains(other) {
        let i = choose|i: int| 0 <= i < rest.len() && rest[i] == other;
        assert(with[i] == other);
    }
    if with.contains(other) {
        let i = choose|i: int| 0 <= i < with.len() && with[i] == other;
        assert(rest[i] == other);
    }
}

/// The synthetic folder is never writable, is found by its uid as it was planned, and is
/// listed just where it is to be seen.
pub proof fn law_synthetic_folder_is_read_only(t: Tree, parent: u64, plan: VirtualRootPlan)
    requires
        t.wf(),
        t.next_ino < u64::MAX,
        t.listings.contains_key(parent),
    ensures
        ({
            let s = virtual_published(t, parent, plan);
            let ino = s.by_uid[plan.node.uid@];
            &&& s.by_uid.contains_key(plan.node.uid@) && s.entries.contains_key(ino)
            &&& s.entries[ino].node == plan.node && s.entries[ino].parent == parent
            &&& !s.entries[ino].access.can_write()
            &&& s.listings.contains_key(parent) && (s.listings[parent].contains(ino)
                <==> plan.visible)
        }),
{
    let shared = Tree {
        share_access: t.share_access.insert(plan.node.uid@, Access::Viewer),
        ..t
    };
    law_interned_is_placed(shared, parent, plan.node);
    let m = shared.interned(parent, plan.node);
    let ino = shared.ino_for(plan.node.uid@);
    let other = if ino == 0 {
        1u64
    } else {
        0u64
    };
    law_synthetic_folder_is_listed_once(m, parent, ino, plan.visible, other);
}

/// A listing that is there is served as it is, unless it is somebody else's, went stale, and
/// the remote can be asked; a folder that nobody knows is missing.
pub proof fn law_listings_are_planned(
    t: Tree,
    ino: u64,
    primary: bool,
    root: Uid,
    online: bool,
    foreign_stale: bool,
)
    ensures
        ({
            let plan = plan_for(t, ino, primary, root, online, foreign_stale);
            let known = t.entries.contains_key(ino);
            let uid = t.entries[ino].uid@;
            let theirs = uid.volume != root.volume && !uid.is_virtual() && !uid.is_local();
            &&& plan is Missing <==> !known
            &&& plan is SharedRoot <==> known && uid.is_virtual()
            &&& plan is Enumerate <==> known && !uid.is_virtual() && theirs && online
                && foreign_stale
            &&& plan is Resident <==> known && !uid.is_virtual() && t.listings.contains_key(ino)
                && !(theirs && online && foreign_stale)
            &&& plan is Load <==> known && !uid.is_virtual() && !t.listings.contains_key(ino) && !(
            theirs && online && foreign_stale)
            &&& plan is Enumerate ==> plan->Enumerate_folder@ == uid && plan->Enumerate_foreign
            &&& plan is Load ==> plan->Load_folder@ == uid && plan->Load_foreign == theirs
            &&& plan is Resident ==> (plan->reconcile <==> primary && uid == root)
            &&& plan is Load ==> (plan->Load_primary_root <==> primary && uid == root)
        }),
{
}

/// What a folder shows are its nodes with their queued sizes, in order, without those in the
/// trash, about to go there, or that are the folder itself; and without the synthetic one
/// where that is left out.
pub proof fn law_folders_show_what_is_visible(
    nodes: Seq<Node>,
    sizes: Map<Uid, u64>,
    folder: Uid,
    hidden: Set<Uid>,
    drop_virtual: bool,
)
    ensures
        shown(nodes, sizes, folder, hidden, drop_virtual) == nodes.filter(
            |n: Node|
                !n.trashed && n.uid@ != folder && !hidden.contains(n.uid@) && !(drop_virtual
                    && n.uid@.is_virtual()),
        ).map_values(|n: Node| n.sized(sizes)),
    decreases nodes.len(),
{
    reveal(Seq::filter);
    if nodes.len() > 0 {
        law_folders_show_what_is_visible(nodes.drop_last(), sizes, folder, hidden, drop_virtual);
    }
    assert(shown(nodes, sizes, folder, hidden, drop_virtual) =~= nodes.filter(
        |n: Node|
            !n.trashed && n.uid@ != folder && !hidden.contains(n.uid@) && !(drop_virtual
                && n.uid@.is_virtual()),
    ).map_values(|n: Node| n.sized(sizes)));
}

/// The sizes that are missing are those of the files that claim none, in order.
pub proof fn law_unclaimed_sizes_are_missing(nodes: Seq<Node>)
    ensures
        sizes_missing(nodes) == nodes.filter(
            |n: Node| n.kind is File && n.kind->claimed_size is None,
        ).map_values(|n: Node| n.uid@),
    decreases nodes.len(),
{
    reveal(Seq::filter);
    if nodes.len() > 0 {
        law_unclaimed_sizes_are_missing(nodes.drop_last());
    }
    assert(sizes_missing(nodes) =~= nodes.filter(
        |n: Node| n.kind is File && n.kind->claimed_size is None,
    ).map_values(|n: Node| n.uid@));
}

/// Everything that was removed from a listing is hidden, and what is hidden stays so.
pub proof fn law_removed_nodes_are_hidden(t: Tree, removed: Seq<NodeUid>, ino: u64, i: int)
    requires
        t.entries.contains_key(ino),
    ensures
        withdrawn_all(t, removed).entries.contains_key(ino),
        withdrawn_all(t, removed).by_uid == t.by_uid,
        t.entries[ino].node.trashed ==> withdrawn_all(t, removed).entries[ino].node.trashed,
        0 <= i < removed.len() && t.by_uid.contains_key(removed[i]@) && t.by_uid[removed[i]@] == ino
            ==> withdrawn_all(t, removed).entries[ino].node.trashed,
    decreases removed.len(),
{
    if removed.len() > 0 {
        let rest = removed.drop_last();
        law_removed_nodes_are_hidden(t, rest, ino, i);
        let s = withdrawn_all(t, rest);
        let u = removed.last()@;
        if s.by_uid.contains_key(u) {
            law_withdrawal_hides_what_is_below(s, u, ino);
            if s.by_uid[u] == ino {
                assert(s.in_subtree(ino, ino));
            }
        }
        if 0 <= i < rest.len() {
            assert(rest[i] == removed[i]);
        }
    }
}

/// Whatever lost its share may not be written.
pub proof fn law_rejected_shares_are_read_only(t: Tree, uids: Seq<NodeUid>, i: int)
    requires
        0 <= i < uids.len(),
    ensures
        all_downgraded(t, uids).share_access.contains_key(uids[i]@),
        all_downgraded(t, uids).share_access[uids[i]@] is Viewer,
        all_downgraded(t, uids).by_uid == t.by_uid,
        t.by_uid.contains_key(uids[i]@) && t.entries.contains_key(t.by_uid[uids[i]@])
            ==> all_downgraded(t, uids).entries.contains_key(t.by_uid[uids[i]@])
            && !all_downgraded(t, uids).entries[t.by_uid[uids[i]@]].access.can_write(),
    decreases uids.len(),
{
    let rest = uids.drop_last();
    let s = all_downgraded(t, rest);
    let u = uids.last()@;
    lemma_downgrading_keeps_entries(t, rest);
    if i < rest.len() {
        law_rejected_shares_are_read_only(t, rest, i);
        assert(rest[i] == uids[i]);
    }
    let at = t.by_uid[uids[i]@];
    if t.by_uid.contains_key(uids[i]@) && t.entries.contains_key(at) {
        law_downgrade_reaches_what_is_below(s, u, at);
        if uids[i]@ == u {
            assert(s.in_subtree(at, at));
        }
    }
}

proof fn lemma_downgrading_keeps_entries(t: Tree, uids: Seq<NodeUid>)
    ensures
        all_downgraded(t, uids).by_uid == t.by_uid,
        all_downgraded(t, uids).entries.dom() == t.entries.dom(),
    decreases uids.len(),
{
    if uids.len() > 0 {
        lemma_downgrading_keeps_entries(t, uids.drop_last());
        let s = all_downgraded(t, uids.drop_last());
        assert(s.downgraded(uids.last()@).entries.dom() =~= s.entries.dom());
    }
}

/// A share is shown with the access it was accepted with, and read-only where none is known.
pub proof fn law_shares_have_their_access(
    t: Tree,
    parent: u64,
    node: Node,
    access: Map<Uid, Access>,
)
    requires
        t.wf(),
        t.next_ino < u64::MAX,
    ensures
        ({
            let s = share_interned(t, parent, node, share_access_of(access, node.uid@));
            let ino = s.by_uid[node.uid@];
            &&& s.by_uid.contains_key(node.uid@) && s.entries.contains_key(ino)
            &&& s.entries[ino].node == node && s.entries[ino].parent == parent
            &&& access.contains_key(node.uid@) ==> s.entries[ino].access == access[node.uid@]
            &&& !access.contains_key(node.uid@) ==> !s.entries[ino].access.can_write()
            &&& s.share_access[node.uid@] == s.entries[ino].access
        }),
{
    let given = Tree {
        share_access: t.share_access.insert(node.uid@, share_access_of(access, node.uid@)),
        ..t
    };
    law_interned_is_placed(given, parent, node);
}

/// A child is looked up by its name: the first resident one in the listing that has it.
pub proof fn law_children_are_looked_up_by_name(t: Tree, kids: Seq<u64>, name: Seq<char>)
    ensures
        match child_named(t, kids, name) {
            Some(k) => exists|i: int|
                0 <= i < kids.len() && #[trigger] kids[i] == k && t.entries.contains_key(k)
                    && t.entries[k].node.name@ == name && forall|j: int|
                    0 <= j < i ==> !(t.entries.contains_key(#[trigger] kids[j])
                        && t.entries[kids[j]].node.name@ == name),
            None => forall|i: int|
                0 <= i < kids.len() ==> !(t.entries.contains_key(#[trigger] kids[i])
                    && t.entries[kids[i]].node.name@ == name),
        },
    decreases kids.len(),
{
    if kids.len() > 0 {
        let rest = kids.skip(1);
        if t.entries.contains_key(kids[0]) && t.entries[kids[0]].node.name@ == name {
            assert(kids[0] == kids[0]);
        } else {
            law_children_are_looked_up_by_name(t, rest, name);
            match child_named(t, rest, name) {
                Some(k) => {
                    let i = choose|i: int|
                        0 <= i < rest.len() && #[trigger] rest[i] == k && t.entries.contains_key(k)
                            && t.entries[k].node.name@ == name && forall|j: int|
                            0 <= j < i ==> !(t.entries.contains_key(#[trigger] rest[j])
                                && t.entries[rest[j]].node.name@ == name);
                    assert(kids[i + 1] == k);
                    assert forall|j: int| 0 <= j < i + 1 implies !(t.entries.contains_key(
                        #[trigger] kids[j],
                    ) && t.entries[kids[j]].node.name@ == name) by {
                        if j > 0 {
                            assert(rest[j - 1] == kids[j]);
                        }
                    }
                },
                None => {
                    assert forall|i: int| 0 <= i < kids.len() implies !(t.entries.contains_key(
                        #[trigger] kids[i],
                    ) && t.entries[kids[i]].node.name@ == name) by {
                        if i > 0 {
                            assert(rest[i - 1] == kids[i]);
                        }
                    }
                },
            }
        }
    }
}

/// A walk goes from a folder to its child of that name, and asks for a listing that is not
/// known; it never goes up.
pub proof fn law_walks_go_down_by_name(t: Tree, ino: u64, name: Seq<char>)
    requires
        name != "/"@,
        name != "."@,
    ensures
        walked(t, ino, seq![]) == Walk::Done(ino),
        name == ".."@ ==> walked(t, ino, seq![name]) == Walk::Failed(Errno::Inval),
        name != ".."@ && !t.listings.contains_key(ino) ==> walked(t, ino, seq![name]) == Walk::List(
            ino,
        ),
        name != ".."@ && t.listings.contains_key(ino) ==> match walked(t, ino, seq![name]) {
            Walk::Done(child) => t.listings[ino].contains(child) && t.entries.contains_key(child)
                && t.entries[child].node.name@ == name,
            Walk::Failed(e) => e == Errno::Noent && forall|i: int|
                0 <= i < t.listings[ino].len() ==> !(t.entries.contains_key(
                    #[trigger] t.listings[ino][i],
                ) && t.entries[t.listings[ino][i]].node.name@ == name),
            Walk::List(_) => false,
        },
        walked(t, ino, seq!["/"@]) == Walk::Done(ino),
        walked(t, ino, seq!["."@]) == Walk::Done(ino),
{
    reveal_with_fuel(walked, 3);
    assert(seq![name].skip(1) =~= Seq::<Seq<char>>::empty());
    assert(seq!["/"@].skip(1) =~= Seq::<Seq<char>>::empty());
    assert(seq!["."@].skip(1) =~= Seq::<Seq<char>>::empty());
    if t.listings.contains_key(ino) {
        law_children_are_looked_up_by_name(t, t.listings[ino], name);
    }
}

/// A listing holds its nodes as they were published, in order, the last of one uid as it came
/// last; the nodes of other folders stay.
pub proof fn law_published_nodes_are_what_came(
    t: Tree,
    ino: u64,
    nodes: Seq<Node>,
    i: int,
    other: u64,
)
    requires
        t.wf(),
        t.next_ino + nodes.len() <= u64::MAX,
        0 <= i < nodes.len(),
        forall|j: int| i < j < nodes.len() ==> (#[trigger] nodes[j]).uid@ != nodes[i].uid@,
    ensures
        ({
            let s = listed(t, ino, nodes);
            let k = s.listings[ino][i];
            &&& s.listings.contains_key(ino) && s.listings[ino].len() == nodes.len()
            &&& s.entries.contains_key(k) && s.entries[k].node == nodes[i] && s.entries[k].parent
                == ino
            &&& other != ino && t.listings.contains_key(other) ==> s.listings.contains_key(other)
                && s.listings[other] == t.listings[other]
        }),
{
    law_published_nodes_are_placed(t, ino, nodes, i);
    law_interned_nodes_are_all_placed(t, ino, nodes, i, other);
    lemma_interned_all(t, ino, nodes);
}

/// What was removed from what is shared is in no listing of its folder any more.
pub proof fn law_removed_shares_leave_the_listing(t: Tree, removed: Seq<NodeUid>, i: int)
    requires
        0 <= i < removed.len(),
        t.by_uid.contains_key(removed[i]@),
        t.entries.contains_key(t.by_uid[removed[i]@]),
    ensures
        ({
            let s = dentries_hidden(t, removed);
            let ino = t.by_uid[removed[i]@];
            let folder = t.entries[ino].parent;
            &&& s.entries == t.entries && s.by_uid == t.by_uid
            &&& s.listings.contains_key(folder) <==> t.listings.contains_key(folder)
            &&& s.listings.contains_key(folder) ==> !s.listings[folder].contains(ino)
        }),
    decreases removed.len(),
{
    let rest = removed.drop_last();
    let s = dentries_hidden(t, rest);
    lemma_hiding_keeps_entries(t, rest);
    let u = removed.last()@;
    let ino = t.by_uid[removed[i]@];
    let folder = t.entries[ino].parent;
    if i < rest.len() {
        assert(rest[i] == removed[i]);
        law_removed_shares_leave_the_listing(t, rest, i);
        if s.listings.contains_key(folder) && s.by_uid.contains_key(u) {
            lemma_without(s.listings[folder], s.by_uid[u]);
        }
    } else if s.listings.contains_key(folder) {
        lemma_without(s.listings[folder], ino);
    }
}

proof fn lemma_hiding_keeps_entries(t: Tree, removed: Seq<NodeUid>)
    ensures
        dentries_hidden(t, removed).entries == t.entries,
        dentries_hidden(t, removed).by_uid == t.by_uid,
        dentries_hidden(t, removed).listings.dom() == t.listings.dom(),
    decreases removed.len(),
{
    if removed.len() > 0 {
        lemma_hiding_keeps_entries(t, removed.drop_last());
        let s = dentries_hidden(t, removed.drop_last());
        assert(s.dentry_hidden(removed.last()@).listings.dom() =~= s.listings.dom());
    }
}

/// What is shared is listed in order, each root found by its uid below the folder; the last
/// of one uid has the access that was accepted for it, and is read-only where none was.
pub proof fn law_listed_shares_have_their_access(
    t: Tree,
    ino: u64,
    nodes: Seq<Node>,
    access: Map<Uid, Access>,
    i: int,
)
    requires
        t.wf(),
        t.next_ino + nodes.len() <= u64::MAX,
    ensures
        ({
            let (s, inos) = shares_interned(t, ino, nodes, access);
            &&& s.wf() && t.next_ino <= s.next_ino <= t.next_ino + nodes.len()
            &&& inos.len() == nodes.len() && s.listings == t.listings
            &&& shares_listed(t, ino, nodes, access).listings.contains_key(ino)
            &&& shares_listed(t, ino, nodes, access).listings[ino] == inos
            &&& 0 <= i < nodes.len() ==> s.by_uid.contains_key(nodes[i].uid@)
                && s.by_uid[nodes[i].uid@] == inos[i]
            &&& (0 <= i < nodes.len() && forall|j: int|
                i < j < nodes.len() ==> (#[trigger] nodes[j]).uid@ != nodes[i].uid@) ==> {
                let e = s.entries[inos[i]];
                &&& s.entries.contains_key(inos[i]) && e.node == nodes[i] && e.parent == ino
                &&& access.contains_key(nodes[i].uid@) ==> e.access == access[nodes[i].uid@]
                &&& !access.contains_key(nodes[i].uid@) ==> !e.access.can_write()
            }
        }),
    decreases nodes.len(),
{
    if nodes.len() > 0 {
        let rest = nodes.drop_last();
        let last = nodes.len() - 1;
        assert(nodes[last] == nodes.last());
        law_listed_shares_have_their_access(t, ino, rest, access, i);
        let (s, inos) = shares_interned(t, ino, rest, access);
        let node = nodes.last();
        let given = Tree {
            share_access: s.share_access.insert(node.uid@, share_access_of(access, node.uid@)),
            ..s
        };
        assert(given.wf());
        crate::state::law_intern_keeps_wf(given, ino, node);
        law_interned_is_placed(given, ino, node);
        law_shares_have_their_access(s, ino, node, access);
        if 0 <= i < rest.len() {
            assert(rest[i] == nodes[i]);
            if forall|j: int|
                i < j < nodes.len() ==> (#[trigger] nodes[j]).uid@ != nodes[i].uid@ {
                assert(nodes[last].uid@ != nodes[i].uid@);
                assert forall|j: int| i < j < rest.len() implies (#[trigger] rest[j]).uid@
                    != rest[i].uid@ by {
                    assert(rest[j] == nodes[j]);
                }
            }
        }
    }
}

} // verus!

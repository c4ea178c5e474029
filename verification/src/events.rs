//! Remote events: what each one changes in every mounted inode space, what the
//! kernel is told, and how far the persisted cursor may move.
//!
//! The tree is authoritative by absence. Dropping a folder's listing makes the
//! next access enumerate it again, so most events only drop listings.

use crate::access::Access;
use crate::notify::{inval_all, Notice, NotifyBatch};
use crate::self_changes::{
    claimed, echoes_owed, is_echo, take_self_change, SelfChange, SELF_CHANGE_TTL_MS,
};
use crate::state::{
    contains_ino, law_downgrade_reaches_what_is_below, law_no_share_stays_writable, leads_up,
    lemma_losers, State,
    Tree,
};
use crate::uid::{is_local_uid, is_own_or_virtual_uid, NodeUid, Uid};
use crate::uidmap::{UidMap, UidSet};
use vstd::prelude::*;

verus! {

/// A remote event. Every one carries the id to persist as the next cursor.
#[derive(Debug)]
pub enum DriveEvent {
    NodeUpdated {
        id: String,
        node_uid: NodeUid,
        parent_node_uid: Option<NodeUid>,
        is_trashed: bool,
    },
    NodeDeleted { id: String, node_uid: NodeUid, parent_node_uid: Option<NodeUid> },
    CursorAdvanced { id: String },
    ContinuityLost { id: String },
    ScopeAccessLost { id: String },
    SharedWithMeUpdated { id: String },
}

/// What an event has the database write, before anything is acknowledged.
pub enum StoreWrite {
    Nothing,
    /// Withdraw a foreign subtree.
    TombstoneForeignSubtree(NodeUid),
    /// Make one shared root read-only.
    DowngradeShare(NodeUid),
    /// Make every shared root read-only and forget when shares were listed.
    DowngradeAllShares,
}

impl DriveEvent {
    /// The event's id.
    pub open spec fn cursor(self) -> String {
        match self {
            DriveEvent::NodeUpdated { id, .. } => id,
            DriveEvent::NodeDeleted { id, .. } => id,
            DriveEvent::CursorAdvanced { id } => id,
            DriveEvent::ContinuityLost { id } => id,
            DriveEvent::ScopeAccessLost { id } => id,
            DriveEvent::SharedWithMeUpdated { id } => id,
        }
    }

    /// The id to persist once the event is applied.
    pub fn id(&self) -> (r: &String)
        ensures
            *r == self.cursor(),
    {
        match self {
            DriveEvent::NodeUpdated { id, .. } => id,
            DriveEvent::NodeDeleted { id, .. } => id,
            DriveEvent::CursorAdvanced { id } => id,
            DriveEvent::ContinuityLost { id } => id,
            DriveEvent::ScopeAccessLost { id } => id,
            DriveEvent::SharedWithMeUpdated { id } => id,
        }
    }

    /// Whether shared access as a whole can no longer be trusted.
    pub open spec fn loses_continuity(self) -> bool {
        self is ContinuityLost || self is ScopeAccessLost || self is SharedWithMeUpdated
    }

    fn continuity_lost(&self) -> (r: bool)
        ensures
            r == self.loses_continuity(),
    {
        match self {
            DriveEvent::ContinuityLost { .. } => true,
            DriveEvent::ScopeAccessLost { .. } => true,
            DriveEvent::SharedWithMeUpdated { .. } => true,
            _ => false,
        }
    }

    /// Whether the event deletes a node of somebody else's volume.
    pub open spec fn deletes_foreign(self, own_volume: Seq<char>) -> bool {
        match self {
            DriveEvent::NodeDeleted { node_uid, .. } => node_uid@.volume != own_volume
                && !node_uid@.is_virtual() && !node_uid@.is_local(),
            _ => false,
        }
    }
}

/// Whether the event deletes a node of somebody else's volume.
pub fn is_foreign_node_delete(event: &DriveEvent, own_volume: &str) -> (r: bool)
    ensures
        r == event.deletes_foreign(own_volume@),
{
    match event {
        DriveEvent::NodeDeleted { node_uid, .. } => !is_own_or_virtual_uid(node_uid, own_volume)
            && !is_local_uid(node_uid),
        _ => false,
    }
}

/// Whether applying the event has to exclude the publication of shared
/// listings, and makes listings that are on their way stale.
pub fn event_serializes_shared_publication(event: &DriveEvent, own_volume: &str) -> (r: bool)
    ensures
        r == (event.loses_continuity() || event.deletes_foreign(own_volume@)),
{
    event.continuity_lost() || is_foreign_node_delete(event, own_volume)
}

/// Whether a listing that was asked for in `captured` may still be published.
pub fn refresh_generation_is_current(captured: u64, current: u64) -> (r: bool)
    ensures
        r == (captured == current),
{
    captured == current
}

/// The write that makes the fail-closed part of an event durable.
pub fn event_write(event: &DriveEvent, own_volume: &str) -> (r: StoreWrite)
    ensures
        match event {
            DriveEvent::NodeDeleted { node_uid, .. } => if event.deletes_foreign(own_volume@) {
                r == StoreWrite::TombstoneForeignSubtree(*node_uid)
            } else {
                r == StoreWrite::DowngradeShare(*node_uid)
            },
            _ => if event.loses_continuity() {
                r == StoreWrite::DowngradeAllShares
            } else {
                r == StoreWrite::Nothing
            },
        },
{
    match event {
        DriveEvent::NodeDeleted { node_uid, .. } => {
            if is_foreign_node_delete(event, own_volume) {
                StoreWrite::TombstoneForeignSubtree(node_uid.clone())
            } else {
                StoreWrite::DowngradeShare(node_uid.clone())
            }
        },
        DriveEvent::NodeUpdated { .. } => StoreWrite::Nothing,
        DriveEvent::CursorAdvanced { .. } => StoreWrite::Nothing,
        DriveEvent::ContinuityLost { .. } => StoreWrite::DowngradeAllShares,
        DriveEvent::ScopeAccessLost { .. } => StoreWrite::DowngradeAllShares,
        DriveEvent::SharedWithMeUpdated { .. } => StoreWrite::DowngradeAllShares,
    }
}

/// The notification that a dentry is gone, if there was one.
pub open spec fn deletion_notice(t: Tree, uid: Uid) -> Seq<Notice> {
    match t.dentry(uid) {
        Some((parent, name)) => seq![Notice::Delete { parent, child: t.by_uid[uid], name }],
        None => seq![],
    }
}

/// Drop `uid` from one mount and tell its kernel session that the dentry is
/// gone. Returns whether this mount held the node.
pub fn forget_and_notify(st: &mut State, notify: &mut NotifyBatch, uid: &NodeUid) -> (r: bool)
    ensures
        final(st)@ == old(st)@.forgotten(uid@),
        r == old(st)@.dentry(uid@) is Some,
        final(notify)@ == old(notify)@ + deletion_notice(old(st)@, uid@),
        old(st)@.wf() ==> final(st)@.wf(),
{
    let ghost before = notify@;
    let child = st.ino_of(uid);
    match st.forget(uid) {
        None => {
            assert(notify@ =~= before + deletion_notice(old(st)@, uid@));
            false
        },
        Some((parent, name)) => {
            match child {
                Some(c) => {
                    notify.delete(parent, c, name);
                },
                None => {
                    notify.inval_entry(parent, name);
                },
            }
            assert(notify@ =~= before + deletion_notice(old(st)@, uid@));
            true
        },
    }
}

/// Withdraw a foreign subtree that was deleted: it becomes read-only, is no
/// longer offered, and the kernel is told.
pub fn hide_foreign_deleted_and_notify(st: &mut State, notify: &mut NotifyBatch, uid: &NodeUid)
    requires
        old(st)@.wf(),
    ensures
        final(st)@ == old(st)@.downgraded(uid@).withdrawn(uid@),
        final(notify)@ == old(notify)@ + inval_all(
            old(st)@.losers(uid@, old(st).next_ino as nat),
        ) + deletion_notice(old(st)@, uid@),
        final(st)@.wf(),
{
    let child = st.ino_of(uid);
    let dentry = match child {
        Some(ino) => match st.entries.get(&ino) {
            Some(e) => Some((e.parent, e.node.name.clone())),
            None => None,
        },
        None => None,
    };
    let changed = st.downgrade_shared_subtree(uid);
    st.hide_foreign_subtree(uid);
    notify.extend_inodes(changed.as_slice());
    let ghost mid = notify@;
    match (dentry, child) {
        (Some((parent, name)), Some(c)) => {
            notify.delete(parent, c, name);
        },
        _ => {},
    }
    assert(notify@ =~= mid + deletion_notice(old(st)@, uid@));
}

/// Whether the listing of `parent` accounts for `child`, so that a change of
/// ours to the child leaves nothing to read again. An absent listing does: it
/// is enumerated on the next access regardless.
pub open spec fn accounts_for(t: Tree, parent: Uid, child: Uid) -> bool {
    ||| !t.by_uid.contains_key(parent)
    ||| !t.listings.contains_key(t.by_uid[parent])
    ||| {
        &&& t.by_uid.contains_key(child)
        &&& t.listings[t.by_uid[parent]].contains(t.by_uid[child])
        &&& t.entries.contains_key(t.by_uid[child])
        &&& t.entries[t.by_uid[child]].parent == t.by_uid[parent]
    }
}

/// Whether this mount's cached listing of `parent_uid` accounts for
/// `child_uid`.
pub fn listing_accounts_for(st: &State, parent_uid: &NodeUid, child_uid: &NodeUid) -> (r: bool)
    ensures
        r == accounts_for(st@, parent_uid@, child_uid@),
{
    let parent: u64 = match st.ino_of(parent_uid) {
        None => {
            return true;
        },
        Some(p) => p,
    };
    match st.children.get(&parent) {
        None => true,
        Some(kids) => {
            assert(st@.listings.contains_key(parent));
            match st.ino_of(child_uid) {
                None => false,
                Some(child) => contains_ino(kids, child) && match st.entries.get(&child) {
                    Some(e) => e.parent == parent,
                    None => false,
                },
            }
        },
    }
}

/// The folders that a batch of events changed, collected so that their listings
/// are dropped once at the end of the batch.
pub struct DirtyParents {
    /// Folders changed by somebody else: their listings must go.
    pub foreign: UidSet,
    /// Folders changed by this daemon, and the children it was about.
    pub ours: UidMap<UidSet>,
}

impl DirtyParents {
    /// The children that this daemon changed in `parent`.
    pub open spec fn ours_in(self, parent: Uid) -> Set<Uid> {
        if self.ours@.contains_key(parent) {
            self.ours@[parent]@
        } else {
            Set::empty()
        }
    }

    pub fn new() -> (r: Self)
        ensures
            r.foreign@ == Set::<Uid>::empty(),
            r.ours@ == Map::<Uid, UidSet>::empty(),
    {
        DirtyParents { foreign: UidSet::new(), ours: UidMap::new() }
    }

    fn note_ours(&mut self, parent: &NodeUid, child: &NodeUid)
        ensures
            final(self).foreign == old(self).foreign,
            forall|p: Uid| #[trigger]
                final(self).ours_in(p) == (if p == parent@ {
                    old(self).ours_in(p).insert(child@)
                } else {
                    old(self).ours_in(p)
                }),
            final(self).ours@.dom() == old(self).ours@.dom().insert(parent@),
    {
        let ghost before = self.ours@;
        let mut set = match self.ours.remove(parent) {
            Some(s) => s,
            None => UidSet::new(),
        };
        set.insert(child.clone());
        self.ours.insert(parent.clone(), set);
        assert(self.ours@.dom() =~= before.dom().insert(parent@));
    }
}

/// The tree that applying an event to one mount leaves.
pub open spec fn event_tree(t: Tree, event: DriveEvent, own_volume: Seq<char>, ours: bool) -> Tree {
    match event {
        DriveEvent::NodeUpdated { node_uid, is_trashed, .. } => if is_trashed {
            t.forgotten(node_uid@)
        } else if !ours && t.by_uid.contains_key(node_uid@) {
            Tree { listings: t.listings.remove(t.by_uid[node_uid@]), ..t }
        } else {
            t
        },
        DriveEvent::NodeDeleted { node_uid, .. } => if event.deletes_foreign(own_volume) {
            t.downgraded(node_uid@).withdrawn(node_uid@)
        } else {
            t.downgraded(node_uid@).forgotten(node_uid@)
        },
        DriveEvent::CursorAdvanced { .. } => t,
        _ => Tree { listings: Map::empty(), ..t.downgraded_all() },
    }
}

/// What the kernel is told about one mount, for an event that does not lose
/// continuity.
pub open spec fn event_notices(
    t: Tree,
    event: DriveEvent,
    own_volume: Seq<char>,
    ours: bool,
) -> Seq<Notice> {
    match event {
        DriveEvent::NodeUpdated { node_uid, is_trashed, .. } => if is_trashed {
            deletion_notice(t, node_uid@)
        } else if !ours && t.by_uid.contains_key(node_uid@) {
            seq![Notice::InvalInode(t.by_uid[node_uid@])]
        } else {
            seq![]
        },
        DriveEvent::NodeDeleted { node_uid, .. } => inval_all(
            t.losers(node_uid@, t.next_ino as nat),
        ) + deletion_notice(t, node_uid@),
        _ => seq![],
    }
}

/// Whether `ino` is refreshed when continuity is lost: it held a listing, or
/// lost write access.
pub open spec fn continuity_refreshes(t: Tree, ino: u64) -> bool {
    t.listings.contains_key(ino) || (t.entries.contains_key(ino) && t.below_a_share(ino)
        && t.entries[ino].access.can_write())
}

/// Whether one mount held the node that an update is about.
pub open spec fn held_node(t: Tree, event: DriveEvent, ours: bool) -> bool {
    match event {
        DriveEvent::NodeUpdated { node_uid, is_trashed, .. } => if is_trashed {
            t.dentry(node_uid@) is Some
        } else {
            !ours && t.by_uid.contains_key(node_uid@)
        },
        _ => false,
    }
}

fn drop_all_listings(st: &mut State, notify: &mut NotifyBatch)
    requires
        old(st)@.wf(),
    ensures
        final(st)@ == (Tree { listings: Map::empty(), ..old(st)@ }),
        final(st)@.wf(),
        forall|n: Notice| #[trigger]
            final(notify)@.contains(n) <==> old(notify)@.contains(n) || exists|ino: u64| #[trigger]
                old(st)@.listings.contains_key(ino) && n == Notice::InvalInode(ino),
{
    let ghost before = st@;
    let ghost told = notify@;
    let mut ino: u64 = 0;
    let end: u64 = st.next_ino;
    while ino < end
        invariant
            ino <= end,
            end == st.next_ino,
            before.wf(),
            st@.wf(),
            st@ == (Tree { listings: st@.listings, ..before }),
            forall|k: u64| #[trigger]
                st@.listings.contains_key(k) <==> before.listings.contains_key(k) && k >= ino,
            forall|k: u64| #[trigger]
                st@.listings.contains_key(k) ==> st@.listings[k] == before.listings[k],
            forall|n: Notice| #[trigger]
                notify@.contains(n) <==> told.contains(n) || exists|k: u64| #[trigger]
                    before.listings.contains_key(k) && k < ino && n == Notice::InvalInode(k),
        decreases end - ino,
    {
        let ghost had = notify@;
        if st.has_children(ino) {
            st.invalidate_listing(ino);
            notify.inval_inode(ino);
            proof {
                assert forall|n: Notice| #[trigger] notify@.contains(n) <==> had.contains(n) || n
                    == Notice::InvalInode(ino) by {
                    if had.contains(n) {
                        let i = choose|i: int| 0 <= i < had.len() && had[i] == n;
                        assert(notify@[i] == n);
                    }
                    if n == Notice::InvalInode(ino) {
                        assert(notify@.last() == n);
                    }
                    if notify@.contains(n) {
                        let i = choose|i: int| 0 <= i < notify@.len() && notify@[i] == n;
                        if i < had.len() {
                            assert(had[i] == n);
                        }
                    }
                }
                assert(before.listings.contains_key(ino));
            }
        }
        proof {
            assert forall|n: Notice| #[trigger] notify@.contains(n) <==> told.contains(n)
                || exists|k: u64| #[trigger]
                before.listings.contains_key(k) && k < ino + 1 && n == Notice::InvalInode(k) by {
                if had.contains(n) && !told.contains(n) {
                    let k = choose|k: u64| #[trigger]
                        before.listings.contains_key(k) && k < ino && n == Notice::InvalInode(k);
                    assert(before.listings.contains_key(k) && k < ino + 1);
                }
                if exists|k: u64| #[trigger]
                    before.listings.contains_key(k) && k < ino + 1 && n == Notice::InvalInode(k) {
                    let k = choose|k: u64| #[trigger]
                        before.listings.contains_key(k) && k < ino + 1 && n == Notice::InvalInode(k);
                    if k < ino {
                        assert(had.contains(n));
                    } else {
                        assert(k == ino);
                    }
                }
            }
        }
        ino = ino + 1;
    }
    proof {
        assert(st@.listings =~= Map::empty());
        assert forall|n: Notice| #[trigger] notify@.contains(n) <==> told.contains(n) || exists|
            k: u64,
        | #[trigger]
            before.listings.contains_key(k) && n == Notice::InvalInode(k) by {
            if exists|k: u64| #[trigger]
                before.listings.contains_key(k) && n == Notice::InvalInode(k) {
                let k = choose|k: u64| #[trigger]
                    before.listings.contains_key(k) && n == Notice::InvalInode(k);
                assert(before.listings.contains_key(k) && k < ino);
            }
        }
    }
}

/// Apply one event to one mount. `ours` says that the event is about a change
/// of this daemon's own, or about a node it owes an upload for. Returns whether
/// the mount held the node that an update is about.
pub fn apply_to_mount(
    st: &mut State,
    notify: &mut NotifyBatch,
    event: &DriveEvent,
    own_volume: &str,
    ours: bool,
) -> (had_node: bool)
    requires
        old(st)@.wf(),
        old(notify)@.len() == 0,
    ensures
        final(st)@ == event_tree(old(st)@, *event, own_volume@, ours),
        final(st)@.wf(),
        had_node == held_node(old(st)@, *event, ours),
        !event.loses_continuity() ==> final(notify)@ == event_notices(
            old(st)@,
            *event,
            own_volume@,
            ours,
        ),
        event.loses_continuity() ==> forall|n: Notice| #[trigger]
            final(notify)@.contains(n) <==> exists|ino: u64| #[trigger]
                continuity_refreshes(old(st)@, ino) && n == Notice::InvalInode(ino),
{
    let ghost before = st@;
    match event {
        DriveEvent::NodeUpdated { node_uid, is_trashed, .. } => {
            if *is_trashed {
                let r = forget_and_notify(st, notify, node_uid);
                assert(notify@ =~= deletion_notice(before, node_uid@));
                r
            } else if ours {
                assert(notify@ =~= Seq::<Notice>::empty());
                false
            } else {
                match st.ino_of(node_uid) {
                    Some(ino) => {
                        st.invalidate_listing(ino);
                        notify.inval_inode(ino);
                        assert(notify@ =~= seq![Notice::InvalInode(ino)]);
                        true
                    },
                    None => {
                        assert(notify@ =~= Seq::<Notice>::empty());
                        false
                    },
                }
            }
        },
        DriveEvent::NodeDeleted { node_uid, .. } => {
            if is_foreign_node_delete(event, own_volume) {
                hide_foreign_deleted_and_notify(st, notify, node_uid);
                assert(notify@ =~= event_notices(before, *event, own_volume@, ours));
            } else {
                let changed = st.downgrade_shared_subtree(node_uid);
                notify.extend_inodes(changed.as_slice());
                let ghost mid = st@;
                let _ = forget_and_notify(st, notify, node_uid);
                assert(mid.dentry(node_uid@) == before.dentry(node_uid@));
                assert(notify@ =~= event_notices(before, *event, own_volume@, ours));
            }
            false
        },
        DriveEvent::CursorAdvanced { .. } => {
            assert(notify@ =~= Seq::<Notice>::empty());
            false
        },
        _ => {
            let changed = st.downgrade_known_shared_access();
            notify.extend_inodes(changed.as_slice());
            let ghost told = notify@;
            let ghost mid = st@;
            drop_all_listings(st, notify);
            proof {
                assert(told =~= inval_all(changed@));
                assert(st@ =~= event_tree(before, *event, own_volume@, ours));
                assert forall|n: Notice| #[trigger] notify@.contains(n) <==> exists|ino: u64|
                    #[trigger] continuity_refreshes(before, ino) && n == Notice::InvalInode(ino) by {
                    if told.contains(n) {
                        let i = choose|i: int| 0 <= i < told.len() && told[i] == n;
                        assert(n == Notice::InvalInode(changed@[i]));
                        assert(changed@.contains(changed@[i]));
                        assert(continuity_refreshes(before, changed@[i]));
                    }
                    if exists|k: u64| #[trigger]
                        mid.listings.contains_key(k) && n == Notice::InvalInode(k) {
                        let k = choose|k: u64| #[trigger]
                            mid.listings.contains_key(k) && n == Notice::InvalInode(k);
                        assert(continuity_refreshes(before, k));
                    }
                    if exists|ino: u64| #[trigger]
                        continuity_refreshes(before, ino) && n == Notice::InvalInode(ino) {
                        let ino = choose|ino: u64| #[trigger]
                            continuity_refreshes(before, ino) && n == Notice::InvalInode(ino);
                        if before.listings.contains_key(ino) {
                            assert(mid.listings.contains_key(ino));
                        } else {
                            assert(before.entries.contains_key(ino));
                            assert(changed@.contains(ino));
                            let i = choose|i: int| 0 <= i < changed@.len() && changed@[i] == ino;
                            assert(told[i] == n);
                            assert(told.contains(n));
                        }
                    }
                }
            }
            false
        },
    }
}

/// What applying an event asks of everything outside the inode spaces.
pub struct EventEffects {
    /// What each mount's kernel session is told, mount by mount.
    pub batches: Vec<NotifyBatch>,
    /// The cached content of the node is stale.
    pub evict: bool,
    /// The event concerns a node that this daemon is ahead of.
    pub ours: bool,
}

/// Whether an event is about a change of this daemon's own, or about a node it
/// owes an upload for: such a node is ahead of the remote, not behind it. A node
/// that went to the trash never counts.
pub open spec fn event_is_ours(
    event: DriveEvent,
    changes: Map<Uid, SelfChange>,
    pending: Set<Uid>,
    now_ms: i64,
) -> bool {
    match event {
        DriveEvent::NodeUpdated { node_uid, is_trashed, .. } => !is_trashed && (is_echo(
            changes,
            node_uid@,
            now_ms,
        ) || pending.contains(node_uid@)),
        _ => false,
    }
}

/// The echoes that are still owed after an event.
pub open spec fn event_changes(
    event: DriveEvent,
    changes: Map<Uid, SelfChange>,
    now_ms: i64,
) -> Map<Uid, SelfChange> {
    match event {
        DriveEvent::NodeUpdated { node_uid, .. } => claimed(changes, node_uid@, now_ms),
        _ => changes,
    }
}

/// Apply one event to every mounted inode space.
///
/// An event names a node, not a mount, so every mount is offered it. The
/// folder it changed is recorded for the end of the batch.
pub fn apply_event(
    mounts: &mut Vec<State>,
    event: &DriveEvent,
    own_volume: &str,
    changes: &mut UidMap<SelfChange>,
    pending: &UidSet,
    dirty: &mut DirtyParents,
    now_ms: i64,
) -> (r: EventEffects)
    requires
        forall|i: int| 0 <= i < old(mounts)@.len() ==> (#[trigger] old(mounts)@[i])@.wf(),
        echoes_owed(old(changes)@),
    ensures
        r.ours == event_is_ours(*event, old(changes)@, pending@, now_ms),
        final(changes)@ == event_changes(*event, old(changes)@, now_ms),
        echoes_owed(final(changes)@),
        final(mounts)@.len() == old(mounts)@.len(),
        r.batches@.len() == old(mounts)@.len(),
        forall|i: int|
            0 <= i < old(mounts)@.len() ==> (#[trigger] final(mounts)@[i])@ == event_tree(
                old(mounts)@[i]@,
                *event,
                own_volume@,
                r.ours,
            ) && final(mounts)@[i]@.wf(),
        !event.loses_continuity() ==> forall|i: int|
            0 <= i < old(mounts)@.len() ==> (#[trigger] r.batches@[i])@ == event_notices(
                old(mounts)@[i]@,
                *event,
                own_volume@,
                r.ours,
            ),
        event.loses_continuity() ==> forall|i: int, n: Notice|
            0 <= i < old(mounts)@.len() ==> (#[trigger] r.batches@[i]@.contains(n)
                <==> exists|ino: u64| #[trigger]
                continuity_refreshes(old(mounts)@[i]@, ino) && n == Notice::InvalInode(ino)),
        r.evict == (event is NodeDeleted || exists|i: int|
            0 <= i < old(mounts)@.len() && held_node(
                (#[trigger] old(mounts)@[i])@,
                *event,
                r.ours,
            )),
        // Of an update of a node that stays, directly.
        event matches DriveEvent::NodeUpdated { node_uid, is_trashed, .. } ==> !*is_trashed ==> {
            &&& pending@.contains(node_uid@) ==> r.ours
            &&& r.ours ==> pending@.contains(node_uid@) || old(changes)@.contains_key(node_uid@)
            &&& forall|i: int|
                0 <= i < old(mounts)@.len() && !r.ours && (#[trigger] old(mounts)@[i])@.by_uid.contains_key(
                    node_uid@,
                ) ==> r.evict && !final(mounts)@[i]@.listings.contains_key(
                    old(mounts)@[i]@.by_uid[node_uid@],
                ) && r.batches@[i]@.contains(
                    Notice::InvalInode(old(mounts)@[i]@.by_uid[node_uid@]),
                ) && final(mounts)@[i]@.entries == old(mounts)@[i]@.entries
            &&& forall|i: int|
                0 <= i < old(mounts)@.len() && (r.ours || !(#[trigger] old(
                    mounts,
                )@[i])@.by_uid.contains_key(node_uid@)) ==> final(mounts)@[i]@ == old(mounts)@[i]@
                    && r.batches@[i]@.len() == 0
            &&& r.ours ==> !r.evict
        },
        // Of a node that went, directly.
        event matches DriveEvent::NodeUpdated { node_uid, is_trashed, .. } ==> *is_trashed
            ==> !r.ours && forall|i: int|
            0 <= i < old(mounts)@.len() ==> !(#[trigger] final(mounts)@[i])@.by_uid.contains_key(
                node_uid@,
            ),
        event matches DriveEvent::NodeDeleted { node_uid, .. } ==> r.evict && forall|i: int|
            0 <= i < old(mounts)@.len() ==> !(#[trigger] final(mounts)@[i])@.owns_visible(
                node_uid@,
            ),
        match event {
            DriveEvent::NodeUpdated { node_uid, parent_node_uid: Some(p), .. } => if r.ours {
                &&& final(dirty).foreign@ == old(dirty).foreign@
                &&& forall|q: Uid| #[trigger]
                    final(dirty).ours_in(q) == (if q == p@ {
                        old(dirty).ours_in(q).insert(node_uid@)
                    } else {
                        old(dirty).ours_in(q)
                    })
            } else {
                &&& final(dirty).foreign@ == old(dirty).foreign@.insert(p@)
                &&& final(dirty).ours == old(dirty).ours
            },
            _ => *final(dirty) == *old(dirty),
        },
{
    let ours = match event {
        DriveEvent::NodeUpdated { node_uid, is_trashed, .. } => {
            let echo = take_self_change(changes, node_uid, now_ms);
            !*is_trashed && (echo || pending.contains(node_uid))
        },
        _ => false,
    };
    let ghost before = mounts@;
    let mut batches: Vec<NotifyBatch> = Vec::new();
    let mut evict = false;
    let mut i: usize = 0;
    while i < mounts.len()
        invariant
            i <= mounts@.len(),
            mounts@.len() == before.len(),
            batches@.len() == i,
            forall|k: int| 0 <= k < before.len() ==> (#[trigger] before[k])@.wf(),
            forall|k: int| i <= k < before.len() ==> #[trigger] mounts@[k] == before[k],
            forall|k: int|
                0 <= k < i ==> (#[trigger] mounts@[k])@ == event_tree(
                    before[k]@,
                    *event,
                    own_volume@,
                    ours,
                ) && mounts@[k]@.wf(),
            !event.loses_continuity() ==> forall|k: int|
                0 <= k < i ==> (#[trigger] batches@[k])@ == event_notices(
                    before[k]@,
                    *event,
                    own_volume@,
                    ours,
                ),
            event.loses_continuity() ==> forall|k: int, n: Notice|
                0 <= k < i ==> (#[trigger] batches@[k]@.contains(n) <==> exists|ino: u64| #[trigger]
                    continuity_refreshes(before[k]@, ino) && n == Notice::InvalInode(ino)),
            evict == exists|k: int|
                0 <= k < i && held_node((#[trigger] before[k])@, *event, ours),
        decreases mounts@.len() - i,
    {
        let mut batch = NotifyBatch::new();
        assert(mounts@[i as int] == before[i as int]);
        let had = apply_to_mount(&mut mounts[i], &mut batch, event, own_volume, ours);
        batches.push(batch);
        proof {
            if had {
                assert(held_node(before[i as int]@, *event, ours));
            }
        }
        evict = evict || had;
        i = i + 1;
    }
    match event {
        DriveEvent::NodeUpdated { node_uid, parent_node_uid, .. } => {
            match parent_node_uid {
                Some(parent) => {
                    if ours {
                        dirty.note_ours(parent, node_uid);
                    } else {
                        dirty.foreign.insert(parent.clone());
                    }
                },
                None => {},
            }
        },
        DriveEvent::NodeDeleted { .. } => {
            evict = true;
        },
        _ => {},
    }
    proof {
        match event {
            DriveEvent::NodeUpdated { node_uid, is_trashed, .. } => {
                let u = node_uid@;
                assert forall|k: int|
                    0 <= k < before.len() && !*is_trashed && !ours && (
                    #[trigger] before[k])@.by_uid.contains_key(u) implies evict
                    && !mounts@[k]@.listings.contains_key(before[k]@.by_uid[u])
                    && batches@[k]@.contains(Notice::InvalInode(before[k]@.by_uid[u]))
                    && mounts@[k]@.entries == before[k]@.entries by {
                    law_foreign_update_is_read_again(before[k]@, *event, own_volume@);
                    assert(held_node(before[k]@, *event, ours));
                }
                assert forall|k: int|
                    0 <= k < before.len() && !*is_trashed && (ours || !(
                    #[trigger] before[k])@.by_uid.contains_key(u)) implies mounts@[k]@
                    == before[k]@ && batches@[k]@.len() == 0 by {
                    law_own_update_changes_nothing(before[k]@, *event, own_volume@, ours);
                }
            },
            _ => {},
        }
    }
    EventEffects { batches, evict, ours }
}

/// Whether a batch of events makes one mount drop the listing of the folder
/// `p`.
pub open spec fn drops_folder(t: Tree, dirty: DirtyParents, p: Uid) -> bool {
    t.by_uid.contains_key(p) && (dirty.foreign@.contains(p) || (dirty.ours@.contains_key(p)
        && exists|c: Uid| #[trigger] dirty.ours@[p]@.contains(c) && !accounts_for(t, p, c)))
}

/// Whether a batch of events makes one mount drop the listing of `ino`.
pub open spec fn drops_listing(t: Tree, dirty: DirtyParents, ino: u64) -> bool {
    exists|p: Uid| #[trigger] drops_folder(t, dirty, p) && t.by_uid[p] == ino
}

fn drop_listing(st: &mut State, notify: &mut NotifyBatch, parent_uid: &NodeUid)
    ensures
        old(st)@.wf() ==> final(st)@.wf(),
        if old(st)@.by_uid.contains_key(parent_uid@) {
            &&& final(st)@ == (Tree {
                listings: old(st)@.listings.remove(old(st)@.by_uid[parent_uid@]),
                ..old(st)@
            })
            &&& final(notify)@ == old(notify)@.push(
                Notice::InvalInode(old(st)@.by_uid[parent_uid@]),
            )
        } else {
            *final(st) == *old(st) && final(notify)@ == old(notify)@
        },
{
    match st.ino_of(parent_uid) {
        None => {},
        Some(parent) => {
            st.invalidate_listing(parent);
            notify.inval_inode(parent);
        },
    }
}

fn all_accounted(st: &State, parent: &NodeUid, children: &UidSet) -> (r: bool)
    ensures
        r == forall|c: Uid| #[trigger] children@.contains(c) ==> accounts_for(st@, parent@, c),
{
    let n = children.walk();
    let mut i: usize = 0;
    while i < n
        invariant
            i <= n,
            n == children.members().len(),
            forall|j: int|
                0 <= j < i ==> accounts_for(st@, parent@, #[trigger] children.members()[j]),
        decreases n - i,
    {
        let child = children.member_at(i);
        if !listing_accounts_for(st, parent, child) {
            assert(children@.contains(child@));
            return false;
        }
        i = i + 1;
    }
    proof {
        assert forall|c: Uid| #[trigger] children@.contains(c) implies accounts_for(
            st@,
            parent@,
            c,
        ) by {
            assert(children.members().contains(c));
            let j = choose|j: int|
                0 <= j < children.members().len() && children.members()[j] == c;
            assert(accounts_for(st@, parent@, children.members()[j]));
        }
    }
    true
}

/// The listings a mount keeps when the listings of `gone` are dropped.
pub open spec fn listings_without(t: Tree, gone: Set<u64>) -> Tree {
    Tree {
        listings: Map::new(
            |ino: u64| t.listings.contains_key(ino) && !gone.contains(ino),
            |ino: u64| t.listings[ino],
        ),
        ..t
    }
}

/// The inodes of the folders among the first `n` of `order` that satisfy the
/// drop condition.
spec fn dropped_among(t: Tree, dirty: DirtyParents, order: Seq<Uid>) -> Set<u64> {
    Set::new(
        |ino: u64|
            exists|j: int|
                0 <= j < order.len() && #[trigger] drops_folder(t, dirty, order[j])
                    && t.by_uid[order[j]] == ino,
    )
}

proof fn lemma_dropped_push(t: Tree, dirty: DirtyParents, order: Seq<Uid>, p: Uid)
    ensures
        dropped_among(t, dirty, order.push(p)) == (if drops_folder(t, dirty, p) {
            dropped_among(t, dirty, order).insert(t.by_uid[p])
        } else {
            dropped_among(t, dirty, order)
        }),
{
    let all = order.push(p);
    let a = dropped_among(t, dirty, all);
    let b = dropped_among(t, dirty, order);
    assert forall|ino: u64| a.contains(ino) <==> (b.contains(ino) || (drops_folder(t, dirty, p)
        && t.by_uid[p] == ino)) by {
        if a.contains(ino) {
            let j = choose|j: int|
                0 <= j < all.len() && #[trigger] drops_folder(t, dirty, all[j])
                    && t.by_uid[all[j]] == ino;
            if j < order.len() {
                assert(drops_folder(t, dirty, order[j]));
            }
        }
        if b.contains(ino) {
            let j = choose|j: int|
                0 <= j < order.len() && #[trigger] drops_folder(t, dirty, order[j])
                    && t.by_uid[order[j]] == ino;
            assert(drops_folder(t, dirty, all[j]));
        }
        if drops_folder(t, dirty, p) && t.by_uid[p] == ino {
            assert(drops_folder(t, dirty, all[order.len() as int]));
        }
    }
    if drops_folder(t, dirty, p) {
        assert(a =~= b.insert(t.by_uid[p]));
    } else {
        assert(a =~= b);
    }
}

proof fn lemma_told_push(told: Seq<Notice>, gone: Set<u64>, ino: u64)
    requires
        forall|n: Notice| #[trigger]
            told.contains(n) <==> exists|k: u64| #[trigger] gone.contains(k) && n
                == Notice::InvalInode(k),
    ensures
        forall|n: Notice| #[trigger]
            told.push(Notice::InvalInode(ino)).contains(n) <==> exists|k: u64| #[trigger]
                gone.insert(ino).contains(k) && n == Notice::InvalInode(k),
{
    let next = told.push(Notice::InvalInode(ino));
    let more = gone.insert(ino);
    assert forall|n: Notice| #[trigger] next.contains(n) <==> exists|k: u64| #[trigger]
        more.contains(k) && n == Notice::InvalInode(k) by {
        if next.contains(n) {
            let i = choose|i: int| 0 <= i < next.len() && next[i] == n;
            if i < told.len() {
                assert(told[i] == n);
                assert(told.contains(n));
                let k = choose|k: u64| #[trigger] gone.contains(k) && n == Notice::InvalInode(k);
                assert(more.contains(k));
            } else {
                assert(more.contains(ino));
            }
        }
        if exists|k: u64| #[trigger] more.contains(k) && n == Notice::InvalInode(k) {
            let k = choose|k: u64| #[trigger] more.contains(k) && n == Notice::InvalInode(k);
            if k == ino {
                assert(next.last() == n);
            } else {
                assert(gone.contains(k));
                assert(told.contains(n));
                let i = choose|i: int| 0 <= i < told.len() && told[i] == n;
                assert(next[i] == n);
            }
        }
    }
}

/// Dropping other folders' listings does not change what the listing of `p`
/// accounts for.
proof fn lemma_accounts_stable(t: Tree, gone: Set<u64>, p: Uid, c: Uid)
    requires
        t.by_uid.contains_key(p),
        !gone.contains(t.by_uid[p]),
    ensures
        accounts_for(listings_without(t, gone), p, c) == accounts_for(t, p, c),
{
}

fn flush_mount(st: &mut State, dirty: &DirtyParents) -> (notify: NotifyBatch)
    requires
        old(st)@.wf(),
    ensures
        final(st)@ == listings_without(
            old(st)@,
            Set::new(|ino: u64| drops_listing(old(st)@, *dirty, ino)),
        ),
        final(st)@.wf(),
        forall|n: Notice| #[trigger]
            notify@.contains(n) <==> exists|ino: u64| #[trigger]
                drops_listing(old(st)@, *dirty, ino) && n == Notice::InvalInode(ino),
{
    let ghost before = st@;
    let mut notify = NotifyBatch::new();
    let nf = dirty.foreign.walk();
    let no = dirty.ours.walk();
    let ghost fs = dirty.foreign.members();
    let ghost os = dirty.ours.keys();
    let mut i: usize = 0;
    let ghost mut gone: Set<u64> = Set::empty();
    proof {
        assert(dropped_among(before, *dirty, fs.take(0)) =~= Set::<u64>::empty());
        assert(st@ =~= listings_without(before, gone));
    }
    while i < nf
        invariant
            i <= nf,
            nf == fs.len(),
            fs == dirty.foreign.members(),
            forall|u: Uid| fs.contains(u) <==> #[trigger] dirty.foreign@.contains(u),
            before.wf(),
            st@.wf(),
            gone == dropped_among(before, *dirty, fs.take(i as int)),
            st@ == listings_without(before, gone),
            forall|n: Notice| #[trigger]
                notify@.contains(n) <==> exists|k: u64| #[trigger] gone.contains(k) && n
                    == Notice::InvalInode(k),
        decreases nf - i,
    {
        let p = dirty.foreign.member_at(i);
        let ghost told = notify@;
        drop_listing(st, &mut notify, p);
        proof {
            assert(fs.take(i + 1) =~= fs.take(i as int).push(p@));
            lemma_dropped_push(before, *dirty, fs.take(i as int), p@);
            if before.by_uid.contains_key(p@) {
                let ino = before.by_uid[p@];
                assert(drops_folder(before, *dirty, p@));
                lemma_told_push(told, gone, ino);
                assert(st@ =~= listings_without(before, gone.insert(ino)));
                gone = gone.insert(ino);
            } else {
                assert(!drops_folder(before, *dirty, p@));
            }
        }
        i = i + 1;
    }
    proof {
        assert(fs.take(i as int) =~= fs);
        assert(os.take(0) =~= Seq::<Uid>::empty());
        assert(fs + os.take(0) =~= fs);
    }
    let mut j: usize = 0;
    while j < no
        invariant
            j <= no,
            no == os.len(),
            os == dirty.ours.keys(),
            fs == dirty.foreign.members(),
            os.no_duplicates(),
            forall|u: Uid| fs.contains(u) <==> #[trigger] dirty.foreign@.contains(u),
            before.wf(),
            st@.wf(),
            gone == dropped_among(before, *dirty, fs + os.take(j as int)),
            st@ == listings_without(before, gone),
            forall|n: Notice| #[trigger]
                notify@.contains(n) <==> exists|k: u64| #[trigger] gone.contains(k) && n
                    == Notice::InvalInode(k),
        decreases no - j,
    {
        let (p, children) = dirty.ours.pair_at(j);
        let ghost told = notify@;
        let ghost order = fs + os.take(j as int);
        proof {
            assert(fs + os.take(j + 1) =~= order.push(p@));
            lemma_dropped_push(before, *dirty, order, p@);
        }
        if dirty.foreign.contains(p) {
            proof {
                // The folder was dropped already; dropping it again says nothing new.
                if before.by_uid.contains_key(p@) {
                    assert(fs.contains(p@));
                    let k = choose|k: int| 0 <= k < fs.len() && fs[k] == p@;
                    assert(order[k] == p@);
                    assert(drops_folder(before, *dirty, order[k]));
                    assert(gone.contains(before.by_uid[p@]));
                    assert(gone.insert(before.by_uid[p@]) =~= gone);
                } else {
                    assert(!drops_folder(before, *dirty, p@));
                }
            }
        } else {
            let accounted = all_accounted(st, p, children);
            proof {
                if before.by_uid.contains_key(p@) {
                    let ino = before.by_uid[p@];
                    assert(!gone.contains(ino)) by {
                        if gone.contains(ino) {
                            let k = choose|k: int|
                                0 <= k < order.len() && #[trigger] drops_folder(
                                    before,
                                    *dirty,
                                    order[k],
                                ) && before.by_uid[order[k]] == ino;
                            assert(before.by_uid.contains_key(order[k]));
                            assert(order[k] == p@);
                            if k < fs.len() {
                                assert(fs.contains(p@));
                            } else {
                                assert(os[k - fs.len()] == os[j as int]);
                            }
                        }
                    }
                    assert forall|c: Uid| accounts_for(st@, p@, c) == accounts_for(
                        before,
                        p@,
                        c,
                    ) by {
                        lemma_accounts_stable(before, gone, p@, c);
                    }
                    assert(accounted == !drops_folder(before, *dirty, p@)) by {
                        if !accounted {
                            let c = choose|c: Uid| #[trigger]
                                children@.contains(c) && !accounts_for(st@, p@, c);
                            assert(dirty.ours@[p@]@.contains(c) && !accounts_for(before, p@, c));
                        }
                    }
                } else {
                    assert(!drops_folder(before, *dirty, p@));
                }
            }
            if !accounted {
                drop_listing(st, &mut notify, p);
                proof {
                    if before.by_uid.contains_key(p@) {
                        let ino = before.by_uid[p@];
                        lemma_told_push(told, gone, ino);
                        assert(st@ =~= listings_without(before, gone.insert(ino)));
                        gone = gone.insert(ino);
                    }
                }
            }
        }
        j = j + 1;
    }
    proof {
        assert(os.take(j as int) =~= os);
        let order = fs + os;
        let all = Set::new(|ino: u64| drops_listing(before, *dirty, ino));
        assert forall|ino: u64| gone.contains(ino) <==> all.contains(ino) by {
            if gone.contains(ino) {
                let k = choose|k: int|
                    0 <= k < order.len() && #[trigger] drops_folder(before, *dirty, order[k])
                        && before.by_uid[order[k]] == ino;
                assert(drops_listing(before, *dirty, ino));
            }
            if drops_listing(before, *dirty, ino) {
                let p = choose|p: Uid| #[trigger]
                    drops_folder(before, *dirty, p) && before.by_uid[p] == ino;
                if dirty.foreign@.contains(p) {
                    assert(fs.contains(p));
                    let k = choose|k: int| 0 <= k < fs.len() && fs[k] == p;
                    assert(order[k] == p);
                    assert(drops_folder(before, *dirty, order[k]));
                } else {
                    assert(dirty.ours@.dom().contains(p));
                    assert(os.contains(p));
                    let k = choose|k: int| 0 <= k < os.len() && os[k] == p;
                    assert(order[fs.len() + k] == p);
                    assert(drops_folder(before, *dirty, order[fs.len() + k]));
                }
            }
        }
        assert(gone =~= all);
        assert forall|n: Notice| #[trigger] notify@.contains(n) <==> exists|ino: u64| #[trigger]
            drops_listing(before, *dirty, ino) && n == Notice::InvalInode(ino) by {
            if notify@.contains(n) {
                let k = choose|k: u64| #[trigger] gone.contains(k) && n == Notice::InvalInode(k);
                assert(drops_listing(before, *dirty, k));
            }
            if exists|ino: u64| #[trigger]
                drops_listing(before, *dirty, ino) && n == Notice::InvalInode(ino) {
                let ino = choose|ino: u64| #[trigger]
                    drops_listing(before, *dirty, ino) && n == Notice::InvalInode(ino);
                assert(gone.contains(ino));
            }
        }
    }
    notify
}

/// Drop the listing of every folder that a batch of events changed, in every
/// mount that holds one. A folder that only this daemon changed keeps its
/// listing in a mount that already lists every child the changes were about.
pub fn flush_dirty_parents(mounts: &mut Vec<State>, dirty: &DirtyParents) -> (batches: Vec<
    NotifyBatch,
>)
    requires
        forall|i: int| 0 <= i < old(mounts)@.len() ==> (#[trigger] old(mounts)@[i])@.wf(),
    ensures
        final(mounts)@.len() == old(mounts)@.len(),
        batches@.len() == old(mounts)@.len(),
        forall|i: int|
            0 <= i < old(mounts)@.len() ==> (#[trigger] final(mounts)@[i])@ == listings_without(
                old(mounts)@[i]@,
                Set::new(|ino: u64| drops_listing(old(mounts)@[i]@, *dirty, ino)),
            ) && final(mounts)@[i]@.wf(),
        forall|i: int, n: Notice|
            0 <= i < old(mounts)@.len() ==> (#[trigger] batches@[i]@.contains(n) <==> exists|
                ino: u64,
            | #[trigger]
                drops_listing(old(mounts)@[i]@, *dirty, ino) && n == Notice::InvalInode(ino)),
{
    let ghost before = mounts@;
    let mut batches: Vec<NotifyBatch> = Vec::new();
    let mut i: usize = 0;
    while i < mounts.len()
        invariant
            i <= mounts@.len(),
            mounts@.len() == before.len(),
            batches@.len() == i,
            forall|k: int| 0 <= k < before.len() ==> (#[trigger] before[k])@.wf(),
            forall|k: int| i <= k < before.len() ==> #[trigger] mounts@[k] == before[k],
            forall|k: int|
                0 <= k < i ==> (#[trigger] mounts@[k])@ == listings_without(
                    before[k]@,
                    Set::new(|ino: u64| drops_listing(before[k]@, *dirty, ino)),
                ) && mounts@[k]@.wf(),
            forall|k: int, n: Notice|
                0 <= k < i ==> (#[trigger] batches@[k]@.contains(n) <==> exists|ino: u64| #[trigger]
                    drops_listing(before[k]@, *dirty, ino) && n == Notice::InvalInode(ino)),
        decreases mounts@.len() - i,
    {
        assert(mounts@[i as int] == before[i as int]);
        let batch = flush_mount(&mut mounts[i], dirty);
        batches.push(batch);
        i = i + 1;
    }
    batches
}

/// Acknowledge an event: only after it was applied is its id persisted, and only
/// when that succeeded is it the new cursor.
pub fn acknowledge_applied_event<E, F: FnOnce(&String) -> Result<(), E>>(
    event: &DriveEvent,
    applied: Result<(), E>,
    set_cursor: F,
) -> (r: Result<String, E>)
    requires
        applied is Ok ==> call_requires(set_cursor, (&event.cursor(),)),
    ensures
        match applied {
            Err(e) => r == Err::<String, E>(e),
            Ok(()) => match r {
                Ok(id) => id == event.cursor() && exists|w: Result<(), E>| #[trigger]
                    call_ensures(set_cursor, (&event.cursor(),), w) && w is Ok,
                Err(e) => call_ensures(set_cursor, (&event.cursor(),), Err(e)),
            },
        },
{
    match applied {
        Err(e) => Err(e),
        Ok(()) => {
            let id = event.id();
            match set_cursor(id) {
                Err(e) => Err(e),
                Ok(()) => Ok(id.clone()),
            }
        },
    }
}

/// How one event of a batch went.
#[derive(Clone, Copy, Debug, PartialEq, Eq, Structural)]
pub enum EventOutcome {
    /// Caches converged, the event applied, its id persisted.
    Acknowledged,
    /// Something failed; the rest of the batch is left for the next poll.
    Failed,
}

/// The cursor after a batch: the id of the last event before the first failure.
pub open spec fn batch_cursor(
    cursor: Option<String>,
    batch: Seq<(String, EventOutcome)>,
) -> Option<String>
    decreases batch.len(),
{
    if batch.len() == 0 || batch[0].1 is Failed {
        cursor
    } else {
        batch_cursor(Some(batch[0].0), batch.skip(1))
    }
}

/// The cursor and whether the batch goes on, after one event.
pub fn after_event(cursor: Option<String>, id: &String, outcome: EventOutcome) -> (r: (
    Option<String>,
    bool,
))
    ensures
        outcome is Acknowledged ==> r.0 == Some(*id) && r.1,
        outcome is Failed ==> r.0 == cursor && !r.1,
{
    match outcome {
        EventOutcome::Acknowledged => (Some(id.clone()), true),
        EventOutcome::Failed => (cursor, false),
    }
}

/// Run the outcomes of a batch over the cursor.
pub fn advance_cursor(cursor: Option<String>, batch: &Vec<(String, EventOutcome)>) -> (r: Option<
    String,
>)
    ensures
        r == batch_cursor(cursor, batch@),
{
    let ghost start = cursor;
    let mut at = cursor;
    let mut i: usize = 0;
    assert(batch@.skip(0) =~= batch@);
    while i < batch.len()
        invariant
            i <= batch@.len(),
            start == cursor,
            batch_cursor(start, batch@) == batch_cursor(at, batch@.skip(i as int)),
        decreases batch@.len() - i,
    {
        assert(batch@.skip(i as int)[0] == batch@[i as int]);
        let (next, go_on) = after_event(at, &batch[i].0, batch[i].1);
        at = next;
        if !go_on {
            return at;
        }
        assert(batch@.skip(i as int).skip(1) =~= batch@.skip(i + 1));
        i = i + 1;
    }
    at
}

/// What follows a failure never moves the cursor, so nothing that was not made
/// visible locally is skipped.
pub proof fn law_cursor_never_passes_a_failure(
    cursor: Option<String>,
    done: Seq<(String, EventOutcome)>,
    failed: (String, EventOutcome),
    rest: Seq<(String, EventOutcome)>,
)
    requires
        forall|i: int| 0 <= i < done.len() ==> (#[trigger] done[i]).1 is Acknowledged,
        failed.1 is Failed,
    ensures
        batch_cursor(cursor, done.push(failed) + rest) == (if done.len() > 0 {
            Some(done.last().0)
        } else {
            cursor
        }),
    decreases done.len(),
{
    let all = done.push(failed) + rest;
    if done.len() == 0 {
        assert(all[0] == failed);
    } else {
        assert(all[0] == done[0]);
        let tail = done.skip(1);
        assert forall|i: int| 0 <= i < tail.len() implies (#[trigger] tail[i]).1 is Acknowledged by {
            assert(tail[i] == done[i + 1]);
        }
        law_cursor_never_passes_a_failure(Some(done[0].0), tail, failed, rest);
        assert(all.skip(1) =~= tail.push(failed) + rest);
        if tail.len() > 0 {
            assert(tail.last() == done.last());
        } else {
            assert(done.last() == done[0]);
        }
    }
}

/// Where the event task starts.
pub enum SyncStart {
    /// Pick up exactly where the last run left off.
    Resume(String),
    /// Nothing says what changed before now: drop caches that no event will
    /// ever invalidate, and start at the server's head.
    Seed,
    /// The persisted cursor cannot be read.
    Disabled,
}

/// Where the event task starts, given the persisted cursor.
pub fn sync_start(saved: Result<Option<String>, ()>) -> (r: SyncStart)
    ensures
        r == (match saved {
            Ok(Some(cursor)) => SyncStart::Resume(cursor),
            Ok(None) => SyncStart::Seed,
            Err(()) => SyncStart::Disabled,
        }),
{
    match saved {
        Ok(Some(cursor)) => SyncStart::Resume(cursor),
        Ok(None) => SyncStart::Seed,
        Err(()) => SyncStart::Disabled,
    }
}

/// First and longest delay, in seconds, between attempts to reach the server.
pub const ONLINE_PROBE_MIN: u64 = 5;

pub const ONLINE_PROBE_MAX: u64 = 300;

/// The delay after a failed attempt: twice as long, up to the longest.
pub fn next_probe_delay(delay: u64) -> (r: u64)
    requires
        delay <= ONLINE_PROBE_MAX,
    ensures
        r == (if 2 * delay < ONLINE_PROBE_MAX {
            2 * delay
        } else {
            ONLINE_PROBE_MAX as int
        }),
        delay > 0 ==> delay < r || r == ONLINE_PROBE_MAX,
        r <= ONLINE_PROBE_MAX,
{
    if delay * 2 < ONLINE_PROBE_MAX {
        delay * 2
    } else {
        ONLINE_PROBE_MAX
    }
}

/// The next step of seeding a cursor.
pub enum SeedStep {
    /// Poll from this cursor; `None` where the server reported no event at all.
    Start(Option<String>),
    /// Wait, then ask again with the longer delay.
    Retry { wait: u64, next: u64 },
}

/// Seed the cursor from the ids of the events the server reported. The head is
/// used once it is persisted; any failure is retried.
pub fn seed_step(reported: Option<Vec<String>>, persisted: bool, delay: u64) -> (r: SeedStep)
    requires
        delay <= ONLINE_PROBE_MAX,
    ensures
        match reported {
            None => r matches SeedStep::Retry { wait, next } && wait == delay,
            Some(ids) => if ids@.len() == 0 {
                r == SeedStep::Start(None)
            } else if persisted {
                r == SeedStep::Start(Some(ids@.last()))
            } else {
                r matches SeedStep::Retry { wait, next } && wait == delay
            },
        },
        r matches SeedStep::Retry { wait, next } ==> next == (if 2 * delay < ONLINE_PROBE_MAX {
            2 * delay
        } else {
            ONLINE_PROBE_MAX as int
        }),
{
    match reported {
        None => SeedStep::Retry { wait: delay, next: next_probe_delay(delay) },
        Some(ids) => {
            let n = ids.len();
            if n == 0 {
                SeedStep::Start(None)
            } else if persisted {
                SeedStep::Start(Some(ids[n - 1].clone()))
            } else {
                SeedStep::Retry { wait: delay, next: next_probe_delay(delay) }
            }
        },
    }
}

/// How stale the local-file index may get, in seconds.
pub const LOCAL_INDEX_TTL: i64 = 900;

/// Whether the local-file index is due for a rebuild: it was never built, or
/// was built too long ago.
pub fn run_local_index(indexed_at: Option<i64>, now: i64) -> (r: bool)
    ensures
        r == (match indexed_at {
            None => true,
            Some(at) => now - at >= LOCAL_INDEX_TTL,
        }),
{
    match indexed_at {
        None => true,
        Some(at) => (now as i128) - (at as i128) >= LOCAL_INDEX_TTL as i128,
    }
}

/// A node deleted on a foreign volume is no longer owned by any mount after the
/// event, whatever the database said.
pub proof fn law_foreign_delete_fails_closed(t: Tree, event: DriveEvent, own_volume: Seq<char>)
    requires
        t.wf(),
        event.deletes_foreign(own_volume),
    ensures
        event matches DriveEvent::NodeDeleted { node_uid, .. } ==> {
            let after = event_tree(t, event, own_volume, false);
            &&& !after.owns_visible(node_uid@)
            &&& after.share_access.contains_key(node_uid@)
            &&& after.share_access[node_uid@] == Access::Viewer
            &&& t.by_uid.contains_key(node_uid@) && t.entries.contains_key(t.by_uid[node_uid@])
                ==> !after.entries[t.by_uid[node_uid@]].access.can_write()
        },
{
    match event {
        DriveEvent::NodeDeleted { node_uid, .. } => {
            let u = node_uid@;
            if t.by_uid.contains_key(u) && t.entries.contains_key(t.by_uid[u]) {
                let ino = t.by_uid[u];
                let d = t.downgraded(u);
                assert(t.in_subtree(ino, ino));
                assert(d.in_subtree(ino, ino));
                assert(d.withdrawn(u).entries[ino].node.trashed);
            }
        },
        _ => {},
    }
}

/// An update that somebody else made of a node that a mount knows is read again: its
/// listing goes, the kernel is told of its inode, and its cached content is stale. The
/// node stays where it is.
pub proof fn law_foreign_update_is_read_again(t: Tree, event: DriveEvent, own: Seq<char>)
    ensures
        event matches DriveEvent::NodeUpdated { node_uid, is_trashed, .. } ==> !is_trashed
            && t.by_uid.contains_key(node_uid@) ==> {
            let after = event_tree(t, event, own, false);
            let ino = t.by_uid[node_uid@];
            &&& !after.listings.contains_key(ino)
            &&& event_notices(t, event, own, false).contains(Notice::InvalInode(ino))
            &&& held_node(t, event, false)
            &&& after.entries == t.entries && after.by_uid == t.by_uid && after.share_access
                == t.share_access
            &&& forall|d: u64|
                d != ino && #[trigger] t.listings.contains_key(d) ==> after.listings.contains_key(d)
                    && after.listings[d] == t.listings[d]
        },
{
    match event {
        DriveEvent::NodeUpdated { node_uid, is_trashed, .. } => {
            if !is_trashed && t.by_uid.contains_key(node_uid@) {
                assert(event_notices(t, event, own, false)[0] == Notice::InvalInode(
                    t.by_uid[node_uid@],
                ));
            }
        },
        _ => {},
    }
}

/// An update that is this daemon's own, or that a mount does not know the node of, changes
/// nothing there: the tree stays, the kernel is told nothing, and no content is stale.
pub proof fn law_own_update_changes_nothing(
    t: Tree,
    event: DriveEvent,
    own: Seq<char>,
    ours: bool,
)
    ensures
        event matches DriveEvent::NodeUpdated { node_uid, is_trashed, .. } ==> !is_trashed && (ours
            || !t.by_uid.contains_key(node_uid@)) ==> event_tree(t, event, own, ours) == t
            && event_notices(t, event, own, ours).len() == 0 && !held_node(t, event, ours),
{
}

/// A node that went to the trash is withdrawn from every mount that shows it, whoever put
/// it there, and the kernel is told that its dentry is gone.
pub proof fn law_trashed_node_is_withdrawn(
    t: Tree,
    event: DriveEvent,
    own: Seq<char>,
    ours: bool,
)
    requires
        t.wf(),
    ensures
        event matches DriveEvent::NodeUpdated { node_uid, is_trashed, .. } ==> is_trashed ==> {
            let after = event_tree(t, event, own, ours);
            let u = node_uid@;
            &&& !after.by_uid.contains_key(u) && !after.owns_visible(u)
            &&& t.by_uid.contains_key(u) && t.entries.contains_key(t.by_uid[u]) ==> {
                &&& held_node(t, event, ours)
                &&& event_notices(t, event, own, ours).contains(
                    Notice::Delete {
                        parent: t.entries[t.by_uid[u]].parent,
                        child: t.by_uid[u],
                        name: t.entries[t.by_uid[u]].node.name@,
                    },
                )
            }
            &&& !t.by_uid.contains_key(u) ==> after == t && event_notices(
                t,
                event,
                own,
                ours,
            ).len() == 0 && !held_node(t, event, ours)
        },
{
    match event {
        DriveEvent::NodeUpdated { node_uid, is_trashed, .. } => {
            if is_trashed {
                let u = node_uid@;
                if t.by_uid.contains_key(u) && t.entries.contains_key(t.by_uid[u]) {
                    let notices = event_notices(t, event, own, ours);
                    assert(notices[0] == (Notice::Delete {
                        parent: t.entries[t.by_uid[u]].parent,
                        child: t.by_uid[u],
                        name: t.entries[t.by_uid[u]].node.name@,
                    }));
                }
            }
        },
        _ => {},
    }
}

/// A node that was deleted is owned by no mount any more, wherever it was; nothing that was
/// on the way below it may be written; the kernel is told of each inode that lost that, and
/// that the dentry is gone.
pub proof fn law_deleted_node_is_withdrawn(t: Tree, event: DriveEvent, own: Seq<char>, ino: u64)
    requires
        t.wf(),
    ensures
        event matches DriveEvent::NodeDeleted { node_uid, .. } ==> {
            let after = event_tree(t, event, own, false);
            let u = node_uid@;
            let notices = event_notices(t, event, own, false);
            &&& !after.owns_visible(u)
            &&& after.share_access.contains_key(u) && after.share_access[u] is Viewer
            &&& t.by_uid.contains_key(u) && t.entries.contains_key(ino) ==> forall|way: Seq<u64>|
                #[trigger] leads_up(t, way, ino, t.by_uid[u]) && way.len() <= t.next_ino ==> (
                after.entries.contains_key(ino) ==> !after.entries[ino].access.can_write()) && (
                t.entries[ino].access.can_write() ==> notices.contains(Notice::InvalInode(ino)))
            &&& t.by_uid.contains_key(u) && t.entries.contains_key(t.by_uid[u])
                ==> notices.contains(
                Notice::Delete {
                    parent: t.entries[t.by_uid[u]].parent,
                    child: t.by_uid[u],
                    name: t.entries[t.by_uid[u]].node.name@,
                },
            )
        },
{
    match event {
        DriveEvent::NodeDeleted { node_uid, .. } => {
            let u = node_uid@;
            let d = t.downgraded(u);
            let notices = event_notices(t, event, own, false);
            let lost = t.losers(u, t.next_ino as nat);
            if t.entries.contains_key(ino) {
                law_downgrade_reaches_what_is_below(t, u, ino);
            }
            if event.deletes_foreign(own) {
                law_foreign_delete_fails_closed(t, event, own);
            }
            lemma_losers(t, u, t.next_ino as nat);
            assert(forall|i: u64| #[trigger] d.entries.contains_key(i) == t.entries.contains_key(i));
            if t.by_uid.contains_key(u) && t.entries.contains_key(ino) {
                let root = t.by_uid[u];
                assert forall|way: Seq<u64>| #[trigger]
                    leads_up(t, way, ino, root) && way.len() <= t.next_ino
                        && t.entries[ino].access.can_write() implies notices.contains(
                    Notice::InvalInode(ino),
                ) by {
                    assert(d.entries[ino].access != t.entries[ino].access);
                    assert(t.loses_access(ino, root));
                    assert(lost.contains(ino));
                    let k = choose|k: int| 0 <= k < lost.len() && lost[k] == ino;
                    assert(inval_all(lost)[k] == Notice::InvalInode(ino));
                    assert(notices[k] == Notice::InvalInode(ino));
                }
            }
            if t.by_uid.contains_key(u) && t.entries.contains_key(t.by_uid[u]) {
                assert(notices.last() == (Notice::Delete {
                    parent: t.entries[t.by_uid[u]].parent,
                    child: t.by_uid[u],
                    name: t.entries[t.by_uid[u]].node.name@,
                }));
            }
        },
        _ => {},
    }
}

/// Where continuity is lost every listing is read again and nothing on the way below a
/// share may be written; the kernel is told of each inode that either concerns. Who owns
/// what stays.
pub proof fn law_lost_continuity_trusts_nothing(
    t: Tree,
    event: DriveEvent,
    own: Seq<char>,
    share: Uid,
    ino: u64,
)
    requires
        event is ContinuityLost || event is ScopeAccessLost || event is SharedWithMeUpdated,
    ensures
        event.loses_continuity(),
        ({
            let after = event_tree(t, event, own, false);
            &&& !after.listings.contains_key(ino)
            &&& after.by_uid == t.by_uid
            &&& t.listings.contains_key(ino) ==> continuity_refreshes(t, ino)
            &&& t.entries.contains_key(ino) && t.share_access.contains_key(share)
                && t.by_uid.contains_key(share) ==> forall|way: Seq<u64>| #[trigger]
                leads_up(t, way, ino, t.by_uid[share]) && way.len() <= t.next_ino
                    ==> !after.entries[ino].access.can_write() && (
                t.entries[ino].access.can_write() ==> continuity_refreshes(t, ino))
        }),
{
    let after = event_tree(t, event, own, false);
    if t.entries.contains_key(ino) {
        law_no_share_stays_writable(t, share, ino);
        if t.share_access.contains_key(share) && t.by_uid.contains_key(share) {
            assert forall|way: Seq<u64>| #[trigger]
                leads_up(t, way, ino, t.by_uid[share]) && way.len() <= t.next_ino
                    && t.entries[ino].access.can_write() implies continuity_refreshes(t, ino) by {
                assert(after.entries[ino].access != t.entries[ino].access);
            }
        }
    }
}

/// A cursor that advances changes nothing and stales nothing.
pub proof fn law_cursor_event_changes_nothing(t: Tree, event: DriveEvent, own: Seq<char>)
    requires
        event is CursorAdvanced,
    ensures
        event_tree(t, event, own, false) == t,
        event_notices(t, event, own, false).len() == 0,
        !held_node(t, event, false),
        !event.loses_continuity() && !event.deletes_foreign(own),
{
}

/// An update is this daemon's own just where it owes an upload of the node or an echo of a
/// recent change; one that went to the trash never is. Each update claims at most its own
/// node's echo.
pub proof fn law_ours_is_what_we_are_ahead_of(
    event: DriveEvent,
    changes: Map<Uid, SelfChange>,
    pending: Set<Uid>,
    now: i64,
    other: Uid,
)
    ensures
        event_is_ours(event, changes, pending, now) ==> event is NodeUpdated,
        event matches DriveEvent::NodeUpdated { node_uid, is_trashed, .. } ==> {
            &&& is_trashed ==> !event_is_ours(event, changes, pending, now)
            &&& !is_trashed && pending.contains(node_uid@) ==> event_is_ours(
                event,
                changes,
                pending,
                now,
            )
            &&& !pending.contains(node_uid@) && !changes.contains_key(node_uid@)
                ==> !event_is_ours(event, changes, pending, now)
            &&& !pending.contains(node_uid@) && changes.contains_key(node_uid@) && now
                - changes[node_uid@].at_ms >= SELF_CHANGE_TTL_MS ==> !event_is_ours(
                event,
                changes,
                pending,
                now,
            )
            &&& !is_trashed && changes.contains_key(node_uid@) && now - changes[node_uid@].at_ms
                < SELF_CHANGE_TTL_MS ==> event_is_ours(event, changes, pending, now)
            &&& other != node_uid@ ==> (event_changes(event, changes, now).contains_key(other)
                <==> changes.contains_key(other)) && (changes.contains_key(other)
                ==> event_changes(event, changes, now)[other] == changes[other])
        },
        !(event is NodeUpdated) ==> event_changes(event, changes, now) == changes,
{
}

/// A batch makes a mount read a folder again that somebody else changed, and one of its own
/// changes does so just where the listing is resident and does not hold the child yet.
pub proof fn law_dirty_folders_are_read_again(t: Tree, dirty: DirtyParents, p: Uid)
    requires
        t.wf(),
        t.by_uid.contains_key(p),
    ensures
        dirty.foreign@.contains(p) ==> drops_listing(t, dirty, t.by_uid[p]),
        !dirty.foreign@.contains(p) && !dirty.ours@.contains_key(p) ==> !drops_listing(
            t,
            dirty,
            t.by_uid[p],
        ),
        !dirty.foreign@.contains(p) && !t.listings.contains_key(t.by_uid[p]) ==> !drops_listing(
            t,
            dirty,
            t.by_uid[p],
        ),
        dirty.ours@.contains_key(p) && t.listings.contains_key(t.by_uid[p]) ==> forall|c: Uid|
            #[trigger] dirty.ours@[p]@.contains(c) && (!t.by_uid.contains_key(c)
                || !t.listings[t.by_uid[p]].contains(t.by_uid[c])) ==> drops_listing(
                t,
                dirty,
                t.by_uid[p],
            ),
        !dirty.foreign@.contains(p) && (forall|c: Uid| #[trigger]
            dirty.ours_in(p).contains(c) ==> t.by_uid.contains_key(c) && t.entries.contains_key(
                t.by_uid[c],
            ) && t.entries[t.by_uid[c]].parent == t.by_uid[p] && t.listings.contains_key(
                t.by_uid[p],
            ) && t.listings[t.by_uid[p]].contains(t.by_uid[c])) ==> !drops_listing(
            t,
            dirty,
            t.by_uid[p],
        ),
{
    let ino = t.by_uid[p];
    if drops_listing(t, dirty, ino) {
        let q = choose|q: Uid| #[trigger] drops_folder(t, dirty, q) && t.by_uid[q] == ino;
        assert(q == p);
        if !dirty.foreign@.contains(p) {
            let c = choose|c: Uid| #[trigger]
                dirty.ours@[p]@.contains(c) && !accounts_for(t, p, c);
            assert(dirty.ours_in(p).contains(c));
        }
    }
    if dirty.foreign@.contains(p) {
        assert(drops_folder(t, dirty, p));
    }
    if dirty.ours@.contains_key(p) && t.listings.contains_key(ino) {
        assert forall|c: Uid| #[trigger]
            dirty.ours@[p]@.contains(c) && (!t.by_uid.contains_key(c)
                || !t.listings[ino].contains(t.by_uid[c])) implies drops_listing(t, dirty, ino) by {
            assert(!accounts_for(t, p, c));
            assert(drops_folder(t, dirty, p));
        }
    }
}

/// A batch without a failure moves the cursor to its last event.
pub proof fn law_cursor_follows_a_batch(
    cursor: Option<String>,
    batch: Seq<(String, EventOutcome)>,
)
    requires
        forall|i: int| 0 <= i < batch.len() ==> (#[trigger] batch[i]).1 is Acknowledged,
    ensures
        batch_cursor(cursor, batch) == (if batch.len() > 0 {
            Some(batch.last().0)
        } else {
            cursor
        }),
    decreases batch.len(),
{
    if batch.len() > 0 {
        let tail = batch.skip(1);
        assert forall|i: int| 0 <= i < tail.len() implies (#[trigger] tail[i]).1 is Acknowledged by {
            assert(tail[i] == batch[i + 1]);
        }
        law_cursor_follows_a_batch(Some(batch[0].0), tail);
        if tail.len() > 0 {
            assert(tail.last() == batch.last());
        }
    }
}

/// Dropping listings drops those and no other, and nothing but listings.
pub proof fn law_only_dropped_listings_go(t: Tree, gone: Set<u64>, ino: u64)
    ensures
        listings_without(t, gone).listings.contains_key(ino) <==> t.listings.contains_key(ino)
            && !gone.contains(ino),
        listings_without(t, gone).listings.contains_key(ino) ==> listings_without(
            t,
            gone,
        ).listings[ino] == t.listings[ino],
        listings_without(t, gone).entries == t.entries,
        listings_without(t, gone).by_uid == t.by_uid,
        listings_without(t, gone).share_access == t.share_access,
{
}

/// After a batch, no mount holds a listing of a folder that somebody else changed, and each
/// keeps those of the folders that nobody changed.
pub proof fn law_flush_reads_changed_folders_again(t: Tree, dirty: DirtyParents, p: Uid)
    requires
        t.wf(),
        t.by_uid.contains_key(p),
    ensures
        ({
            let s = listings_without(t, Set::new(|ino: u64| drops_listing(t, dirty, ino)));
            let ino = t.by_uid[p];
            &&& dirty.foreign@.contains(p) ==> !s.listings.contains_key(ino)
            &&& !dirty.foreign@.contains(p) && !dirty.ours@.contains_key(p)
                && t.listings.contains_key(ino) ==> s.listings.contains_key(ino) && s.listings[ino]
                == t.listings[ino]
            &&& s.entries == t.entries && s.by_uid == t.by_uid
        }),
{
    law_dirty_folders_are_read_again(t, dirty, p);
}

/// Access as a whole is in doubt after an event that says so, and a foreign deletion is one
/// of a node on somebody else's volume; no event is both.
pub proof fn law_events_say_what_they_put_in_doubt(event: DriveEvent, own: Seq<char>)
    ensures
        event.loses_continuity() <==> event is ContinuityLost || event is ScopeAccessLost || event
            is SharedWithMeUpdated,
        event.deletes_foreign(own) ==> event is NodeDeleted && !event.loses_continuity(),
        event is NodeDeleted ==> (event.deletes_foreign(own) <==> {
            &&& event->NodeDeleted_node_uid@.volume != own
            &&& !event->NodeDeleted_node_uid@.is_virtual()
            &&& !event->NodeDeleted_node_uid@.is_local()
        }),
{
}

/// Where continuity is lost the kernel is told only of folders whose listing was known, and
/// of what could be written below a share.
pub proof fn law_lost_continuity_tells_only_what_changed(t: Tree, ino: u64)
    requires
        continuity_refreshes(t, ino),
    ensures
        t.listings.contains_key(ino) || (t.entries.contains_key(ino)
            && t.downgraded_all().entries[ino].access != t.entries[ino].access),
{
}

} // verus!

//! Real file sizes, fetched after a listing was served.
//!
//! A cheap enumeration reports the size on storage. The real sizes follow in
//! batches, one per folder at a time, and a `stat` that must not answer with a
//! provisional size parks its reply until its file is resolved.

use crate::listing::{size_is_missing, size_missing, uids};
use crate::node::{Node, NodeKind};
use crate::staging::{pending_sizes, stamp_pending_sizes, PendingRevision};
use crate::state::{Entry, State, Tree};
use crate::text::copy_opt_text;
use crate::uid::{same_uid, NodeUid, Uid};
use crate::uidmap::UidMap;
use std::collections::HashMap;
use vstd::multiset::Multiset;
use vstd::prelude::*;

verus! {

/// How many folders may have a size upgrade in flight at once.
pub const MAX_SIZE_UPGRADES: usize = 8;

/// How many nodes one size-upgrade request covers.
pub const SIZE_UPGRADE_CHUNK: usize = 150;

/// How long, in milliseconds, a caller waits for a real size before it answers
/// with the provisional one.
pub const SIZE_WAIT_MS: u64 = 10_000;

/// How often, in milliseconds, parked replies are tested again.
pub const SIZE_WAIT_POLL_MS: u64 = 20;

/// The uids of the listed children whose size is provisional, in order.
pub open spec fn provisional_kids(t: Tree, kids: Seq<u64>) -> Seq<Uid>
    decreases kids.len(),
{
    if kids.len() == 0 {
        seq![]
    } else {
        let rest = provisional_kids(t, kids.drop_last());
        let ino = kids.last();
        if t.entries.contains_key(ino) && size_missing(t.entries[ino].node) {
            rest.push(t.entries[ino].uid@)
        } else {
            rest
        }
    }
}

/// The batch that a `stat` of `uid` asks for: the whole folder when its listing
/// is resident, the one node otherwise. The node that was asked about is always
/// in it.
pub open spec fn upgrade_batch(t: Tree, ino: u64, uid: Uid, parent: u64) -> (u64, Seq<Uid>) {
    let (key, missing) = if t.listings.contains_key(parent) {
        (parent, provisional_kids(t, t.listings[parent]))
    } else {
        (ino, seq![])
    };
    (
        key,
        if missing.contains(uid) {
            missing
        } else {
            missing.push(uid)
        },
    )
}

/// Gather the batch that a `stat` of `uid` asks for.
pub fn upgrade_sizes_for_parent(state: &State, ino: u64, uid: &NodeUid, parent: u64) -> (r: (
    u64,
    Vec<NodeUid>,
))
    ensures
        (r.0, uids(r.1@)) == upgrade_batch(state@, ino, uid@, parent),
{
    let mut missing: Vec<NodeUid> = Vec::new();
    let mut key: u64 = ino;
    match state.children.get(&parent) {
        Some(kids) => {
            key = parent;
            let mut i: usize = 0;
            assert(state@.listings[parent] == kids@);
            assert(kids@.take(0) =~= Seq::<u64>::empty());
            assert(uids(missing@) =~= Seq::<Uid>::empty());
            while i < kids.len()
                invariant
                    i <= kids@.len(),
                    uids(missing@) == provisional_kids(state@, kids@.take(i as int)),
                decreases kids@.len() - i,
            {
                assert(kids@.take(i + 1).drop_last() =~= kids@.take(i as int));
                match state.entries.get(&kids[i]) {
                    Some(e) => {
                        if size_is_missing(&e.node) {
                            let ghost had = missing@;
                            missing.push(e.uid.clone());
                            assert(uids(missing@) =~= uids(had).push(e.uid@));
                        }
                    },
                    None => {},
                }
                i = i + 1;
            }
            assert(kids@.take(i as int) =~= kids@);
        },
        None => {
            assert(uids(missing@) =~= Seq::<Uid>::empty());
        },
    }
    let ghost found = missing@;
    let mut asked = false;
    let mut k: usize = 0;
    while k < missing.len()
        invariant
            k <= missing@.len(),
            missing@ == found,
            asked == exists|j: int| 0 <= j < k && (#[trigger] missing@[j])@ == uid@,
        decreases missing@.len() - k,
    {
        if same_uid(&missing[k], uid) {
            asked = true;
            assert(missing@[k as int]@ == uid@);
        }
        k = k + 1;
    }
    proof {
        if asked {
            let j = choose|j: int| 0 <= j < k && (#[trigger] missing@[j])@ == uid@;
            assert(uids(found)[j] == uid@);
        }
        if uids(found).contains(uid@) {
            let j = choose|j: int| 0 <= j < uids(found).len() && uids(found)[j] == uid@;
            assert(missing@[j]@ == uid@);
        }
    }
    if !asked {
        missing.push(uid.clone());
        assert(uids(missing@) =~= uids(found).push(uid@));
    }
    (key, missing)
}

/// The node that was asked about is in the batch, whatever is resident.
pub proof fn law_batch_covers_the_asker(t: Tree, ino: u64, uid: Uid, parent: u64)
    ensures
        upgrade_batch(t, ino, uid, parent).1.contains(uid),
{
    let missing = if t.listings.contains_key(parent) {
        provisional_kids(t, t.listings[parent])
    } else {
        seq![]
    };
    if !missing.contains(uid) {
        assert(missing.push(uid).last() == uid);
    }
}

/// One batch in flight.
pub struct SizeUpgrade {
    /// Nothing more is coming.
    pub done: bool,
    /// Counts the chunks that landed.
    pub generation: u64,
}

impl SizeUpgrade {
    pub fn new() -> (r: Self)
        ensures
            !r.done,
            r.generation == 0,
    {
        SizeUpgrade { done: false, generation: 0 }
    }

    pub fn is_finished(&self) -> (r: bool)
        ensures
            r == self.done,
    {
        self.done
    }

    /// A chunk was applied.
    pub fn chunk_done(&mut self)
        requires
            old(self).generation < u64::MAX,
        ensures
            final(self).generation == old(self).generation + 1,
            final(self).done == old(self).done,
    {
        self.generation = self.generation + 1;
    }

    /// The batch ended, however it ended.
    pub fn finish(&mut self)
        requires
            old(self).generation < u64::MAX,
        ensures
            final(self).done,
            final(self).generation == old(self).generation + 1,
    {
        self.done = true;
        self.generation = self.generation + 1;
    }
}

/// What asking for a batch leads to.
#[derive(Clone, Copy, Debug, PartialEq, Eq, Structural)]
pub enum UpgradeStart {
    /// There is nothing to fetch.
    Nothing,
    /// Somebody is fetching this folder already; wait for that.
    Join,
    /// Too many folders are being fetched; answer with the provisional size.
    Full,
    /// This caller starts the batch.
    Start,
}

/// The decision on a batch of `n` nodes for `key`.
pub open spec fn start_for(in_flight: Map<u64, SizeUpgrade>, key: u64, n: nat) -> UpgradeStart {
    if n == 0 {
        UpgradeStart::Nothing
    } else if in_flight.contains_key(key) {
        UpgradeStart::Join
    } else if in_flight.dom().len() >= MAX_SIZE_UPGRADES {
        UpgradeStart::Full
    } else {
        UpgradeStart::Start
    }
}

/// Start or join the batch for `key`: one per folder at a time, and a bounded
/// number of folders.
pub fn upgrade_sizes(in_flight: &mut HashMap<u64, SizeUpgrade>, key: u64, uids: &Vec<NodeUid>) -> (r:
    UpgradeStart)
    ensures
        r == start_for(old(in_flight)@, key, uids@.len()),
        r is Start ==> final(in_flight)@.dom() == old(in_flight)@.dom().insert(key)
            && !final(in_flight)@[key].done && final(in_flight)@[key].generation == 0 && forall|
            k: u64,
        | #[trigger]
            old(in_flight)@.contains_key(k) ==> final(in_flight)@[k] == old(in_flight)@[k],
        !(r is Start) ==> final(in_flight)@ == old(in_flight)@,
        old(in_flight)@.dom().len() <= MAX_SIZE_UPGRADES ==> final(in_flight)@.dom().len()
            <= MAX_SIZE_UPGRADES,
{
    broadcast use vstd::std_specs::hash::group_hash_axioms;

    if uids.len() == 0 {
        return UpgradeStart::Nothing;
    }
    if in_flight.contains_key(&key) {
        return UpgradeStart::Join;
    }
    if in_flight.len() >= MAX_SIZE_UPGRADES {
        return UpgradeStart::Full;
    }
    let ghost before = in_flight@;
    in_flight.insert(key, SizeUpgrade::new());
    assert(in_flight@.dom() =~= before.dom().insert(key));
    UpgradeStart::Start
}

/// Whether `ino` has a real size. A node that vanished counts as resolved.
pub fn size_is_real(state: &State, ino: u64) -> (r: bool)
    ensures
        r == (state@.entries.contains_key(ino) ==> !size_missing(state@.entries[ino].node)),
{
    match state.entries.get(&ino) {
        None => true,
        Some(e) => !size_is_missing(&e.node),
    }
}

/// The bounds of the chunks that `n` nodes are fetched in.
pub open spec fn chunk_end(start: int, n: int, chunk: int) -> int {
    if start + chunk < n {
        start + chunk
    } else {
        n
    }
}

/// The end of the chunk that begins at `start`.
pub fn next_chunk(start: usize, n: usize, chunk: usize) -> (end: usize)
    requires
        start <= n,
        chunk > 0,
    ensures
        end == chunk_end(start as int, n as int, chunk as int),
        start < n ==> start < end <= n,
{
    if n - start > chunk {
        start + chunk
    } else {
        n
    }
}

/// The size that a fetched node reports, if it reports one.
pub open spec fn fetched_size(node: Node) -> Option<i64> {
    match node.kind {
        NodeKind::Folder => None,
        NodeKind::File { claimed_size, .. } => claimed_size,
    }
}

/// A kind with its real size adopted; a folder has none to adopt.
pub open spec fn kind_sized(kind: NodeKind, size: i64) -> NodeKind {
    match kind {
        NodeKind::Folder => NodeKind::Folder,
        NodeKind::File {
            media_type,
            total_size_on_storage,
            active_revision_id,
            claimed_size,
            claimed_modification_time,
            content_sha1,
        } => NodeKind::File {
            media_type,
            total_size_on_storage,
            active_revision_id,
            claimed_size: Some(size),
            claimed_modification_time,
            content_sha1,
        },
    }
}

/// The tree after one fetched node was adopted. Only the size is taken: a name
/// or a folder may have changed locally meanwhile.
pub open spec fn size_adopted(t: Tree, node: Node) -> Tree {
    if t.by_uid.contains_key(node.uid@) && t.entries.contains_key(t.by_uid[node.uid@])
        && fetched_size(node) is Some {
        let ino = t.by_uid[node.uid@];
        let e = t.entries[ino];
        Tree {
            entries: t.entries.insert(
                ino,
                Entry {
                    node: Node { kind: kind_sized(e.node.kind, fetched_size(node)->0), ..e.node },
                    ..e
                },
            ),
            ..t
        }
    } else {
        t
    }
}

/// The tree after every fetched node was adopted, in order.
pub open spec fn sizes_adopted(t: Tree, nodes: Seq<Node>) -> Tree
    decreases nodes.len(),
{
    if nodes.len() == 0 {
        t
    } else {
        size_adopted(sizes_adopted(t, nodes.drop_last()), nodes.last())
    }
}

/// The inodes of the fetched nodes that are resident, in order.
pub open spec fn refreshed(by_uid: Map<Uid, u64>, nodes: Seq<Node>) -> Seq<u64>
    decreases nodes.len(),
{
    if nodes.len() == 0 {
        seq![]
    } else if by_uid.contains_key(nodes.last().uid@) {
        refreshed(by_uid, nodes.drop_last()).push(by_uid[nodes.last().uid@])
    } else {
        refreshed(by_uid, nodes.drop_last())
    }
}

/// The resident nodes of a listing, in order.
pub open spec fn listed_nodes(t: Tree, kids: Seq<u64>) -> Seq<Node>
    decreases kids.len(),
{
    if kids.len() == 0 {
        seq![]
    } else if t.entries.contains_key(kids.last()) {
        listed_nodes(t, kids.drop_last()).push(t.entries[kids.last()].node)
    } else {
        listed_nodes(t, kids.drop_last())
    }
}

fn set_real_size(node: &mut Node, size: i64)
    ensures
        *final(node) == (Node { kind: kind_sized(old(node).kind, size), ..*old(node) }),
{
    let kind = match &node.kind {
        NodeKind::Folder => NodeKind::Folder,
        NodeKind::File {
            media_type,
            total_size_on_storage,
            active_revision_id,
            claimed_size: _,
            claimed_modification_time,
            content_sha1,
        } => NodeKind::File {
            media_type: media_type.clone(),
            total_size_on_storage: *total_size_on_storage,
            active_revision_id: copy_opt_text(active_revision_id),
            claimed_size: Some(size),
            claimed_modification_time: copy_opt_text(claimed_modification_time),
            content_sha1: copy_opt_text(content_sha1),
        },
    };
    node.kind = kind;
}

/// The fetched nodes with the sizes of queued writes: a queued write is ahead of
/// anything that the remote can report.
pub open spec fn with_queued_sizes(
    nodes: Seq<Node>,
    pending: Map<Uid, PendingRevision>,
) -> Seq<Node> {
    nodes.map_values(|n: Node| n.sized(pending_sizes(pending)))
}

/// Adopt the sizes that a chunk fetched, but for those of files with a queued write,
/// which keep the size of that write. Returns the inodes the kernel has to read again
/// and the folder's nodes to persist. A chunk that could not be fetched changes nothing.
pub fn apply_size_upgrade(
    state: &mut State,
    folder_ino: u64,
    result: Result<Vec<Node>, ()>,
    pending: &UidMap<PendingRevision>,
) -> (r: (Vec<u64>, Vec<Node>))
    ensures
        match result {
            Err(_) => final(state)@ == old(state)@ && r.0@.len() == 0 && r.1@.len() == 0,
            Ok(nodes) => {
                &&& final(state)@ == sizes_adopted(
                    old(state)@,
                    with_queued_sizes(nodes@, pending@),
                )
                &&& r.0@ == refreshed(old(state)@.by_uid, nodes@)
                &&& r.1@ == (if old(state)@.listings.contains_key(folder_ino) {
                    listed_nodes(final(state)@, old(state)@.listings[folder_ino])
                } else {
                    Seq::<Node>::empty()
                })
            },
        },
        old(state)@.wf() ==> final(state)@.wf(),
{
    let mut nodes = match result {
        Err(_) => {
            return (Vec::new(), Vec::new());
        },
        Ok(nodes) => nodes,
    };
    let ghost fetched = nodes@;
    stamp_pending_sizes(&mut nodes, pending);
    proof {
        assert(nodes@ =~= with_queued_sizes(fetched, pending@));
        lemma_refreshed_by_uid(state@.by_uid, fetched, nodes@);
    }
    adopt_sizes(state, folder_ino, &nodes)
}

proof fn lemma_refreshed_by_uid(by_uid: Map<Uid, u64>, a: Seq<Node>, b: Seq<Node>)
    requires
        a.len() == b.len(),
        forall|i: int| 0 <= i < a.len() ==> (#[trigger] a[i]).uid == b[i].uid,
    ensures
        refreshed(by_uid, a) == refreshed(by_uid, b),
    decreases a.len(),
{
    if a.len() > 0 {
        assert(a[a.len() - 1].uid == b[b.len() - 1].uid);
        assert forall|i: int| 0 <= i < a.len() - 1 implies (#[trigger] a.drop_last()[i]).uid
            == b.drop_last()[i].uid by {
            assert(a[i].uid == b[i].uid);
        }
        lemma_refreshed_by_uid(by_uid, a.drop_last(), b.drop_last());
    }
}

/// A file with a queued write keeps the size of that write through an upgrade that
/// fetched it, whatever the remote reports.
pub proof fn law_queued_size_survives_an_upgrade(
    t: Tree,
    nodes: Seq<Node>,
    pending: Map<Uid, PendingRevision>,
    uid: Uid,
)
    requires
        t.wf(),
        pending.contains_key(uid),
        t.by_uid.contains_key(uid),
        t.entries.contains_key(t.by_uid[uid]),
        t.entries[t.by_uid[uid]].node.kind == t.entries[t.by_uid[uid]].node.kind.with_size(
            pending[uid].meta.len,
        ),
    ensures
        ({
            let s = sizes_adopted(t, with_queued_sizes(nodes, pending));
            &&& s.entries.contains_key(t.by_uid[uid])
            &&& s.entries[t.by_uid[uid]].node.kind == t.entries[t.by_uid[uid]].node.kind
        }),
    decreases nodes.len(),
{
    if nodes.len() > 0 {
        let rest = nodes.drop_last();
        let stamped = with_queued_sizes(nodes, pending);
        law_queued_size_survives_an_upgrade(t, rest, pending, uid);
        assert(stamped.drop_last() =~= with_queued_sizes(rest, pending));
        let s = sizes_adopted(t, with_queued_sizes(rest, pending));
        law_sizes_change_nothing_else(
            t,
            with_queued_sizes(rest, pending),
            t.by_uid[uid],
        );
        let node = stamped.last();
        assert(node == nodes.last().sized(pending_sizes(pending)));
        if s.by_uid.contains_key(node.uid@) && s.by_uid[node.uid@] == t.by_uid[uid] {
            assert(node.uid@ == uid);
        }
    }
}

fn adopt_sizes(state: &mut State, folder_ino: u64, nodes: &Vec<Node>) -> (r: (
    Vec<u64>,
    Vec<Node>,
))
    ensures
        final(state)@ == sizes_adopted(old(state)@, nodes@),
        r.0@ == refreshed(old(state)@.by_uid, nodes@),
        r.1@ == (if old(state)@.listings.contains_key(folder_ino) {
            listed_nodes(final(state)@, old(state)@.listings[folder_ino])
        } else {
            Seq::<Node>::empty()
        }),
        old(state)@.wf() ==> final(state)@.wf(),
{
    let ghost before = state@;
    let mut changed: Vec<u64> = Vec::new();
    let mut i: usize = 0;
    assert(nodes@.take(0) =~= Seq::<Node>::empty());
    while i < nodes.len()
        invariant
            i <= nodes@.len(),
            state@ == sizes_adopted(before, nodes@.take(i as int)),
            state@.by_uid == before.by_uid,
            state@.listings == before.listings,
            changed@ == refreshed(before.by_uid, nodes@.take(i as int)),
            before.wf() ==> state@.wf(),
        decreases nodes@.len() - i,
    {
        assert(nodes@.take(i + 1).drop_last() =~= nodes@.take(i as int));
        let ghost mid = state@;
        let node = &nodes[i];
        match state.ino_of(&node.uid) {
            None => {},
            Some(ino) => {
                changed.push(ino);
                let size: Option<i64> = match &node.kind {
                    NodeKind::Folder => None,
                    NodeKind::File { claimed_size, .. } => *claimed_size,
                };
                match size {
                    None => {},
                    Some(n) => {
                        match state.entries.remove(&ino) {
                            None => {
                                assert(state@.entries =~= mid.entries);
                            },
                            Some(mut e) => {
                                set_real_size(&mut e.node, n);
                                state.entries.insert(ino, e);
                            },
                        }
                    },
                }
            },
        }
        assert(state@ =~= size_adopted(mid, *node));
        i = i + 1;
    }
    assert(nodes@.take(i as int) =~= nodes@);
    let mut updated: Vec<Node> = Vec::new();
    match state.children.get(&folder_ino) {
        None => {},
        Some(kids) => {
            let mut k: usize = 0;
            assert(state@.listings[folder_ino] == kids@);
            assert(kids@.take(0) =~= Seq::<u64>::empty());
            while k < kids.len()
                invariant
                    k <= kids@.len(),
                    updated@ == listed_nodes(state@, kids@.take(k as int)),
                decreases kids@.len() - k,
            {
                assert(kids@.take(k + 1).drop_last() =~= kids@.take(k as int));
                match state.entries.get(&kids[k]) {
                    Some(e) => {
                        updated.push(e.node.clone());
                    },
                    None => {},
                }
                k = k + 1;
            }
            assert(kids@.take(k as int) =~= kids@);
        },
    }
    (changed, updated)
}

/// Adopting sizes changes no name, no place and no listing.
pub proof fn law_sizes_change_nothing_else(t: Tree, nodes: Seq<Node>, ino: u64)
    requires
        t.entries.contains_key(ino),
    ensures
        sizes_adopted(t, nodes).entries.contains_key(ino),
        sizes_adopted(t, nodes).entries[ino].node.name == t.entries[ino].node.name,
        sizes_adopted(t, nodes).entries[ino].node.parent_uid == t.entries[ino].node.parent_uid,
        sizes_adopted(t, nodes).entries[ino].parent == t.entries[ino].parent,
        sizes_adopted(t, nodes).listings == t.listings,
        sizes_adopted(t, nodes).by_uid == t.by_uid,
    decreases nodes.len(),
{
    if nodes.len() > 0 {
        law_sizes_change_nothing_else(t, nodes.drop_last(), ino);
    }
}

/// A reply that is held back.
#[derive(Clone, Copy, Debug, PartialEq, Eq, Structural)]
pub struct SizeWaiter {
    /// Names the reply.
    pub token: u64,
    /// When to answer anyway, in milliseconds.
    pub deadline: u64,
}

/// The replies that are held back, served by at most one thread.
pub struct SizeWaitQueue {
    pub waiters: Vec<SizeWaiter>,
    /// Whether a thread is serving them.
    pub running: bool,
}

/// Whether a reply is due: its time is up, or what it waits for has happened.
pub open spec fn due(w: SizeWaiter, now: u64, ready: bool) -> bool {
    now >= w.deadline || ready
}

/// The replies that are due, in order.
pub open spec fn due_among(ws: Seq<SizeWaiter>, ready: Seq<bool>, now: u64) -> Seq<SizeWaiter>
    decreases ws.len(),
{
    if ws.len() == 0 {
        seq![]
    } else {
        let rest = due_among(ws.drop_last(), ready.drop_last(), now);
        if due(ws.last(), now, ready.last()) {
            rest.push(ws.last())
        } else {
            rest
        }
    }
}

/// The replies that are not due, in order.
pub open spec fn not_due_among(ws: Seq<SizeWaiter>, ready: Seq<bool>, now: u64) -> Seq<SizeWaiter>
    decreases ws.len(),
{
    if ws.len() == 0 {
        seq![]
    } else {
        let rest = not_due_among(ws.drop_last(), ready.drop_last(), now);
        if due(ws.last(), now, ready.last()) {
            rest
        } else {
            rest.push(ws.last())
        }
    }
}

/// Every reply is either answered now or kept, none twice and none lost.
pub proof fn law_no_reply_is_lost(ws: Seq<SizeWaiter>, ready: Seq<bool>, now: u64)
    requires
        ready.len() == ws.len(),
    ensures
        due_among(ws, ready, now).to_multiset().add(
            not_due_among(ws, ready, now).to_multiset(),
        ) =~= ws.to_multiset(),
    decreases ws.len(),
{
    broadcast use vstd::seq_lib::group_to_multiset_ensures;

    if ws.len() > 0 {
        law_no_reply_is_lost(ws.drop_last(), ready.drop_last(), now);
        assert(ws =~= ws.drop_last().push(ws.last()));
    }
}

/// Past every deadline nothing is held back any more.
pub proof fn law_every_reply_comes(ws: Seq<SizeWaiter>, ready: Seq<bool>, now: u64)
    requires
        ready.len() == ws.len(),
        forall|i: int| 0 <= i < ws.len() ==> now >= (#[trigger] ws[i]).deadline,
    ensures
        not_due_among(ws, ready, now) == Seq::<SizeWaiter>::empty(),
        due_among(ws, ready, now) == ws,
    decreases ws.len(),
{
    if ws.len() > 0 {
        let rest = ws.drop_last();
        assert forall|i: int| 0 <= i < rest.len() implies now >= (#[trigger] rest[i]).deadline by {
            assert(ws[i] == rest[i]);
        }
        assert(now >= ws[ws.len() - 1].deadline);
        law_every_reply_comes(rest, ready.drop_last(), now);
        assert(ws =~= rest.push(ws.last()));
    }
}

/// One round of the serving thread: what it finds of each reply that it took, the time,
/// what is parked while it looks, and what is parked while it sleeps afterwards.
pub struct Round {
    pub ready: Seq<bool>,
    pub now: u64,
    pub meanwhile: Seq<SizeWaiter>,
    pub later: Seq<SizeWaiter>,
}

/// How far the serving thread is: what is held back, what it answered, in order, and
/// whether it still runs.
pub struct Serving {
    pub held: Seq<SizeWaiter>,
    pub answered: Seq<SizeWaiter>,
    pub running: bool,
}

/// The serving thread after one more round: it takes everything, answers what is due, and
/// puts the rest back behind what was parked meanwhile. Where nothing is held back then,
/// it retires.
pub open spec fn after_round(s: Serving, round: Round) -> Serving {
    let held = round.meanwhile + not_due_among(s.held, round.ready, round.now);
    let answered = s.answered + due_among(s.held, round.ready, round.now);
    if held.len() == 0 {
        Serving { held, answered, running: false }
    } else {
        Serving { held: held + round.later, answered, running: true }
    }
}

/// The serving thread after a run of rounds, from what was parked when it started.
pub open spec fn served(start: Seq<SizeWaiter>, rounds: Seq<Round>) -> Serving
    decreases rounds.len(),
{
    if rounds.len() == 0 {
        Serving { held: start, answered: seq![], running: true }
    } else {
        after_round(served(start, rounds.drop_last()), rounds.last())
    }
}

/// Whether the rounds are ones that the thread takes: each while it runs, and each with a
/// finding for every reply that it took.
pub open spec fn is_run(start: Seq<SizeWaiter>, rounds: Seq<Round>) -> bool
    decreases rounds.len(),
{
    rounds.len() > 0 ==> {
        let before = served(start, rounds.drop_last());
        &&& is_run(start, rounds.drop_last())
        &&& before.running
        &&& rounds.last().ready.len() == before.held.len()
    }
}

/// Everything that was parked before a run or during it.
pub open spec fn parked_by(start: Seq<SizeWaiter>, rounds: Seq<Round>) -> Multiset<SizeWaiter>
    decreases rounds.len(),
{
    if rounds.len() == 0 {
        start.to_multiset()
    } else {
        let before = parked_by(start, rounds.drop_last()).add(
            rounds.last().meanwhile.to_multiset(),
        );
        if served(start, rounds).running {
            before.add(rounds.last().later.to_multiset())
        } else {
            before
        }
    }
}

/// Whether round `k` found the `i`-th of the replies that it took to be due.
pub open spec fn found_due(start: Seq<SizeWaiter>, rounds: Seq<Round>, k: int, i: int) -> bool {
    let taken = served(start, rounds.take(k)).held;
    0 <= k < rounds.len() && 0 <= i < taken.len() && due(
        taken[i],
        rounds[k].now,
        rounds[k].ready[i],
    )
}

/// Every reply that was parked, before a run or during it, is answered once or still held
/// back, and once the thread retired nothing is held back: then each was answered exactly
/// once, and the next one to be parked starts a thread again.
pub proof fn law_each_reply_is_answered_once(start: Seq<SizeWaiter>, rounds: Seq<Round>)
    requires
        is_run(start, rounds),
    ensures
        ({
            let s = served(start, rounds);
            &&& s.answered.to_multiset().add(s.held.to_multiset()) == parked_by(start, rounds)
            &&& !s.running ==> s.held.len() == 0 && s.answered.to_multiset() == parked_by(
                start,
                rounds,
            )
        }),
    decreases rounds.len(),
{
    broadcast use vstd::seq_lib::group_to_multiset_ensures;

    let s = served(start, rounds);
    if rounds.len() > 0 {
        let rest = rounds.drop_last();
        let round = rounds.last();
        let before = served(start, rest);
        law_each_reply_is_answered_once(start, rest);
        law_no_reply_is_lost(before.held, round.ready, round.now);
        let out = due_among(before.held, round.ready, round.now);
        let back = not_due_among(before.held, round.ready, round.now);
        vstd::seq_lib::lemma_multiset_commutative(before.answered, out);
        vstd::seq_lib::lemma_multiset_commutative(round.meanwhile, back);
        vstd::seq_lib::lemma_multiset_commutative(round.meanwhile + back, round.later);
        assert(s.answered.to_multiset().add(s.held.to_multiset()) =~= parked_by(start, rounds));
    } else {
        assert(s.answered.to_multiset() =~= Multiset::empty());
        assert(s.answered.to_multiset().add(s.held.to_multiset()) =~= parked_by(start, rounds));
    }
    if !s.running {
        assert(s.held =~= Seq::empty());
        assert(s.answered.to_multiset() =~= parked_by(start, rounds));
    }
}

/// No reply is answered before a round found it due: its time was up, or what it waits for
/// had happened. What happens to others releases nobody.
pub proof fn law_no_reply_comes_early(
    start: Seq<SizeWaiter>,
    rounds: Seq<Round>,
    w: SizeWaiter,
)
    requires
        is_run(start, rounds),
        served(start, rounds).answered.contains(w),
    ensures
        exists|k: int, i: int| #[trigger]
            found_due(start, rounds, k, i) && served(start, rounds.take(k)).held[i] == w,
    decreases rounds.len(),
{
    let rest = rounds.drop_last();
    let round = rounds.last();
    let before = served(start, rest);
    let out = due_among(before.held, round.ready, round.now);
    let at = choose|at: int|
        0 <= at < served(start, rounds).answered.len() && served(start, rounds).answered[at] == w;
    let last = rounds.len() - 1;
    if at < before.answered.len() {
        assert(before.answered[at] == w);
        law_no_reply_comes_early(start, rest, w);
        let (k, i) = choose|k: int, i: int| #[trigger]
            found_due(start, rest, k, i) && served(start, rest.take(k)).held[i] == w;
        assert(rounds.take(k) =~= rest.take(k));
        assert(rounds[k] == rest[k]);
        assert(found_due(start, rounds, k, i));
    } else {
        assert(out[at - before.answered.len()] == w);
        assert(out.contains(w));
        lemma_due_among(before.held, round.ready, round.now, w);
        let i = choose|i: int|
            0 <= i < before.held.len() && #[trigger] before.held[i] == w && due(
                w,
                round.now,
                round.ready[i],
            );
        assert(rounds.take(last) =~= rest);
        assert(found_due(start, rounds, last, i));
    }
}

proof fn lemma_due_among(ws: Seq<SizeWaiter>, ready: Seq<bool>, now: u64, w: SizeWaiter)
    requires
        ready.len() == ws.len(),
        due_among(ws, ready, now).contains(w),
    ensures
        exists|i: int|
            0 <= i < ws.len() && #[trigger] ws[i] == w && due(w, now, ready[i]),
    decreases ws.len(),
{
    let all = due_among(ws, ready, now);
    let rest = due_among(ws.drop_last(), ready.drop_last(), now);
    let at = choose|at: int| 0 <= at < all.len() && all[at] == w;
    if at < rest.len() {
        assert(rest[at] == w);
        lemma_due_among(ws.drop_last(), ready.drop_last(), now, w);
        let i = choose|i: int|
            0 <= i < ws.len() - 1 && #[trigger] ws.drop_last()[i] == w && due(
                w,
                now,
                ready.drop_last()[i],
            );
        assert(ws[i] == w && due(w, now, ready[i]));
    } else {
        assert(ws[ws.len() - 1] == w && due(w, now, ready[ready.len() - 1]));
    }
}

/// A round past every deadline, with nothing parked while it looks, is the last one.
pub proof fn law_serving_ends(start: Seq<SizeWaiter>, rounds: Seq<Round>)
    requires
        is_run(start, rounds),
        rounds.len() > 0,
        rounds.last().meanwhile.len() == 0,
        forall|i: int|
            0 <= i < served(start, rounds.drop_last()).held.len() ==> rounds.last().now >= (
            #[trigger] served(start, rounds.drop_last()).held[i]).deadline,
    ensures
        !served(start, rounds).running,
{
    law_every_reply_comes(
        served(start, rounds.drop_last()).held,
        rounds.last().ready,
        rounds.last().now,
    );
}

/// Tell the replies that are due from those that are not.
pub fn split_waiters(taken: Vec<SizeWaiter>, ready: &Vec<bool>, now: u64) -> (r: (
    Vec<SizeWaiter>,
    Vec<SizeWaiter>,
))
    requires
        ready@.len() == taken@.len(),
    ensures
        r.0@ == due_among(taken@, ready@, now),
        r.1@ == not_due_among(taken@, ready@, now),
{
    let mut answer: Vec<SizeWaiter> = Vec::new();
    let mut keep: Vec<SizeWaiter> = Vec::new();
    let mut i: usize = 0;
    assert(taken@.take(0) =~= Seq::<SizeWaiter>::empty());
    while i < taken.len()
        invariant
            i <= taken@.len(),
            ready@.len() == taken@.len(),
            answer@ == due_among(taken@.take(i as int), ready@.take(i as int), now),
            keep@ == not_due_among(taken@.take(i as int), ready@.take(i as int), now),
        decreases taken@.len() - i,
    {
        assert(taken@.take(i + 1).drop_last() =~= taken@.take(i as int));
        assert(ready@.take(i + 1).drop_last() =~= ready@.take(i as int));
        if now >= taken[i].deadline || ready[i] {
            answer.push(taken[i]);
        } else {
            keep.push(taken[i]);
        }
        i = i + 1;
    }
    assert(taken@.take(i as int) =~= taken@);
    assert(ready@.take(i as int) =~= ready@);
    (answer, keep)
}

/// The earliest deadline among `ws`, or `start` where that is earlier.
pub open spec fn earliest(ws: Seq<SizeWaiter>, start: u64) -> u64
    decreases ws.len(),
{
    if ws.len() == 0 {
        start
    } else {
        let rest = earliest(ws.drop_last(), start);
        if ws.last().deadline < rest {
            ws.last().deadline
        } else {
            rest
        }
    }
}

impl SizeWaitQueue {
    pub fn new() -> (r: Self)
        ensures
            r.waiters@.len() == 0,
            !r.running,
    {
        SizeWaitQueue { waiters: Vec::new(), running: false }
    }

    /// Hold a reply back. Returns whether the caller must start a serving
    /// thread.
    pub fn park(&mut self, waiter: SizeWaiter) -> (start: bool)
        ensures
            final(self).waiters@ == old(self).waiters@.push(waiter),
            final(self).running,
            start == !old(self).running,
    {
        self.waiters.push(waiter);
        if self.running {
            return false;
        }
        self.running = true;
        true
    }

    /// Take everything that is held back, to be tested outside the lock.
    pub fn take(&mut self) -> (r: Vec<SizeWaiter>)
        ensures
            r@ == old(self).waiters@,
            final(self).waiters@.len() == 0,
            final(self).running == old(self).running,
    {
        let mut r: Vec<SizeWaiter> = Vec::new();
        std::mem::swap(&mut r, &mut self.waiters);
        r
    }

    /// Put back what was not due, behind whatever was parked meanwhile. Returns
    /// when to test again, or `None` when nothing is held back any more and the
    /// serving thread retires.
    pub fn serve(&mut self, keep: Vec<SizeWaiter>, now: u64) -> (wake: Option<u64>)
        requires
            now + SIZE_WAIT_POLL_MS <= u64::MAX,
        ensures
            final(self).waiters@ == old(self).waiters@ + keep@,
            match wake {
                None => final(self).waiters@.len() == 0 && !final(self).running,
                Some(until) => final(self).waiters@.len() > 0 && final(self).running == old(
                    self,
                ).running && until == earliest(
                    final(self).waiters@,
                    (now + SIZE_WAIT_POLL_MS) as u64,
                ),
            },
    {
        let mut keep = keep;
        let ghost kept = keep@;
        self.waiters.append(&mut keep);
        if self.waiters.len() == 0 {
            self.running = false;
            return None;
        }
        let mut until: u64 = now + SIZE_WAIT_POLL_MS;
        let mut i: usize = 0;
        let ghost start = until;
        assert(self.waiters@.take(0) =~= Seq::<SizeWaiter>::empty());
        while i < self.waiters.len()
            invariant
                i <= self.waiters@.len(),
                until == earliest(self.waiters@.take(i as int), start),
            decreases self.waiters@.len() - i,
        {
            assert(self.waiters@.take(i + 1).drop_last() =~= self.waiters@.take(i as int));
            if self.waiters[i].deadline < until {
                until = self.waiters[i].deadline;
            }
            i = i + 1;
        }
        assert(self.waiters@.take(i as int) =~= self.waiters@);
        Some(until)
    }

    /// Hand out everything that is held back, to be answered at once, and retire
    /// the serving thread.
    pub fn answer_all(&mut self) -> (r: Vec<SizeWaiter>)
        ensures
            r@ == old(self).waiters@,
            final(self).waiters@.len() == 0,
            !final(self).running,
    {
        self.running = false;
        self.take()
    }
}

/// The children whose sizes are asked for are those that are resident and whose size is
/// missing, in the order of the listing.
pub proof fn law_missing_sizes_are_asked_for(t: Tree, kids: Seq<u64>)
    ensures
        provisional_kids(t, kids) == kids.filter(
            |k: u64| t.entries.contains_key(k) && size_missing(t.entries[k].node),
        ).map_values(|k: u64| t.entries[k].uid@),
    decreases kids.len(),
{
    reveal(Seq::filter);
    if kids.len() > 0 {
        law_missing_sizes_are_asked_for(t, kids.drop_last());
    }
    assert(provisional_kids(t, kids) =~= kids.filter(
        |k: u64| t.entries.contains_key(k) && size_missing(t.entries[k].node),
    ).map_values(|k: u64| t.entries[k].uid@));
}

/// A batch goes by the folder where its listing is known, and by the file else; it holds what
/// is missing there and the one that was asked about.
pub proof fn law_batches_go_by_folder(t: Tree, ino: u64, uid: Uid, parent: u64)
    ensures
        t.listings.contains_key(parent) ==> upgrade_batch(t, ino, uid, parent).0 == parent,
        !t.listings.contains_key(parent) ==> upgrade_batch(t, ino, uid, parent) == (ino, seq![uid]),
        t.listings.contains_key(parent) ==> provisional_kids(t, t.listings[parent]).is_prefix_of(
            upgrade_batch(t, ino, uid, parent).1,
        ) && upgrade_batch(t, ino, uid, parent).1.len() <= provisional_kids(
            t,
            t.listings[parent],
        ).len() + 1,
        upgrade_batch(t, ino, uid, parent).1.contains(uid),
{
    let missing = if t.listings.contains_key(parent) {
        provisional_kids(t, t.listings[parent])
    } else {
        seq![]
    };
    assert(missing.take(missing.len() as int) =~= missing);
    assert(missing.push(uid).take(missing.len() as int) =~= missing);
    assert(missing.push(uid)[missing.len() as int] == uid);
    if !t.listings.contains_key(parent) {
        assert(missing.push(uid) =~= seq![uid]);
    }
}

/// Sizes are fetched just where there are some to fetch, nobody fetches them, and not too
/// many are fetched already.
pub proof fn law_fetches_are_bounded(in_flight: Map<u64, SizeUpgrade>, key: u64, n: nat)
    ensures
        start_for(in_flight, key, n) is Start <==> n > 0 && !in_flight.contains_key(key)
            && in_flight.dom().len() < MAX_SIZE_UPGRADES,
        start_for(in_flight, key, n) is Join <==> n > 0 && in_flight.contains_key(key),
        start_for(in_flight, key, n) is Nothing <==> n == 0,
{
}

/// A chunk is full, or goes to the end.
pub proof fn law_chunks_are_full_but_the_last(start: int, n: int, chunk: int)
    requires
        0 <= start <= n,
        chunk > 0,
    ensures
        start <= chunk_end(start, n, chunk) <= n,
        chunk_end(start, n, chunk) - start <= chunk,
        chunk_end(start, n, chunk) == n || chunk_end(start, n, chunk) - start == chunk,
{
}

/// A resident file takes the size that was fetched for it, and no other entry changes; where
/// no size came it stays as it is.
pub proof fn law_fetched_sizes_are_adopted(t: Tree, node: Node, ino: u64)
    requires
        t.by_uid.contains_key(node.uid@),
        t.entries.contains_key(t.by_uid[node.uid@]),
        t.entries[t.by_uid[node.uid@]].node.kind is File,
    ensures
        ({
            let s = size_adopted(t, node);
            let at = t.by_uid[node.uid@];
            &&& node.kind is File && node.kind->claimed_size is Some ==> s.entries.contains_key(at)
                && s.entries[at].node.kind is File && s.entries[at].node.kind->claimed_size
                == node.kind->claimed_size
            &&& node.kind is Folder || node.kind->claimed_size is None ==> s == t
            &&& ino != at && t.entries.contains_key(ino) ==> s.entries.contains_key(ino)
                && s.entries[ino] == t.entries[ino]
            &&& s.entries[at].node.name == t.entries[at].node.name
                && s.entries[at].node.modification_time == t.entries[at].node.modification_time
                && s.entries[at].node.kind->active_revision_id
                == t.entries[at].node.kind->active_revision_id
            &&& s.listings == t.listings && s.by_uid == t.by_uid
        }),
{
}

/// The inodes that are told to the kernel are those of the nodes that came, where they are
/// known, in their order.
pub proof fn law_known_nodes_are_refreshed(by_uid: Map<Uid, u64>, nodes: Seq<Node>)
    ensures
        refreshed(by_uid, nodes) == nodes.filter(
            |n: Node| by_uid.contains_key(n.uid@),
        ).map_values(|n: Node| by_uid[n.uid@]),
    decreases nodes.len(),
{
    reveal(Seq::filter);
    if nodes.len() > 0 {
        law_known_nodes_are_refreshed(by_uid, nodes.drop_last());
    }
    assert(refreshed(by_uid, nodes) =~= nodes.filter(
        |n: Node| by_uid.contains_key(n.uid@),
    ).map_values(|n: Node| by_uid[n.uid@]));
}

/// What is stored of a folder again are its resident children, in the order of its listing.
pub proof fn law_resident_children_are_stored(t: Tree, kids: Seq<u64>)
    ensures
        listed_nodes(t, kids) == kids.filter(|k: u64| t.entries.contains_key(k)).map_values(
            |k: u64| t.entries[k].node,
        ),
    decreases kids.len(),
{
    reveal(Seq::filter);
    if kids.len() > 0 {
        law_resident_children_are_stored(t, kids.drop_last());
    }
    assert(listed_nodes(t, kids) =~= kids.filter(
        |k: u64| t.entries.contains_key(k),
    ).map_values(|k: u64| t.entries[k].node));
}

/// Who waits is answered as soon as the size is there or the time is up, and not before.
pub proof fn law_waiting_ends_in_time(ws: Seq<SizeWaiter>, ready: Seq<bool>, now: u64, i: int)
    requires
        ws.len() == ready.len(),
        0 <= i < ws.len(),
    ensures
        ready[i] || now >= ws[i].deadline ==> due_among(ws, ready, now).contains(ws[i]),
        !ready[i] && now < ws[i].deadline ==> not_due_among(ws, ready, now).contains(ws[i]),
    decreases ws.len(),
{
    let rest = ws.drop_last();
    let flags = ready.drop_last();
    let d = due_among(ws, ready, now);
    let k = not_due_among(ws, ready, now);
    if i < rest.len() {
        law_waiting_ends_in_time(rest, flags, now, i);
        assert(rest[i] == ws[i] && flags[i] == ready[i]);
        if due_among(rest, flags, now).contains(ws[i]) {
            let j = choose|j: int|
                0 <= j < due_among(rest, flags, now).len() && due_among(rest, flags, now)[j]
                    == ws[i];
            assert(d[j] == ws[i]);
        }
        if not_due_among(rest, flags, now).contains(ws[i]) {
            let j = choose|j: int|
                0 <= j < not_due_among(rest, flags, now).len() && not_due_among(
                    rest,
                    flags,
                    now,
                )[j] == ws[i];
            assert(k[j] == ws[i]);
        }
    } else if ready[i] || now >= ws[i].deadline {
        assert(d[d.len() - 1] == ws[i]);
    } else {
        assert(k[k.len() - 1] == ws[i]);
    }
}

/// The next look comes at the first of the deadlines, and no later than the next poll.
pub proof fn law_next_look_is_the_first_deadline(ws: Seq<SizeWaiter>, start: u64)
    ensures
        earliest(ws, start) <= start,
        forall|i: int| 0 <= i < ws.len() ==> earliest(ws, start) <= (#[trigger] ws[i]).deadline,
        earliest(ws, start) == start || exists|i: int|
            0 <= i < ws.len() && (#[trigger] ws[i]).deadline == earliest(ws, start),
    decreases ws.len(),
{
    if ws.len() > 0 {
        let rest = ws.drop_last();
        law_next_look_is_the_first_deadline(rest, start);
        let e = earliest(rest, start);
        assert forall|i: int| 0 <= i < ws.len() implies earliest(ws, start) <= (
        #[trigger] ws[i]).deadline by {
            if i < rest.len() {
                assert(rest[i] == ws[i]);
            }
        }
        if earliest(ws, start) == e {
            if e != start {
                let i = choose|i: int| 0 <= i < rest.len() && (#[trigger] rest[i]).deadline == e;
                assert(ws[i].deadline == e);
            }
        } else {
            assert(ws[ws.len() - 1].deadline == earliest(ws, start));
        }
    }
}

} // verus!

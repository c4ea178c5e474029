//! Picking up the writes that outlived the daemon.
//!
//! Queued writes are loaded back from their rows, staged blobs that no row refers
//! to are queued again, and writes that were made durable but never released are
//! walked into the queue. Bytes that cannot be addressed are kept.

use crate::ops::OpKind;
use crate::staging::{PendingRevision, StagedWrite};
use crate::text::same_text;
use crate::uid::{is_local_uid, parse_node_uid, uid_written, NodeUid, Uid};
use crate::uidmap::{UidMap, UidSet};
use vstd::prelude::*;

verus! {

/// A row of the queue as it was loaded: its description, if that could be read,
/// and whether its blob is there.
pub struct LoadedOp {
    pub id: i64,
    pub kind: OpKind,
    pub uid: String,
    pub blob_path: Option<String>,
    pub meta: Option<StagedWrite>,
    pub blob_exists: bool,
}

/// What becomes of a loaded row.
#[derive(Debug, Clone, Copy, PartialEq, Eq, Structural)]
pub enum OpFate {
    /// Its node cannot be named: the row goes.
    Unaddressed,
    /// It stays, and has no bytes to serve.
    Restored,
    /// It stays, and its blob is the file's content until it drains.
    Serves,
    /// Its bytes are gone: the row goes, and so does a node that only it knew.
    Lost,
}

/// What becomes of a loaded row. Only a revision must have bytes.
pub open spec fn fate_of(op: LoadedOp) -> OpFate {
    if uid_written(op.uid@) is None {
        OpFate::Unaddressed
    } else if op.blob_path is None && op.kind != OpKind::Revision {
        OpFate::Restored
    } else if op.meta is None || op.blob_path is None || !op.blob_exists {
        OpFate::Lost
    } else {
        OpFate::Serves
    }
}

/// What becomes of a loaded row.
pub fn op_fate(op: &LoadedOp) -> (r: OpFate)
    ensures
        r == fate_of(*op),
{
    if parse_node_uid(op.uid.as_str()).is_none() {
        OpFate::Unaddressed
    } else if op.blob_path.is_none() && op.kind != OpKind::Revision {
        OpFate::Restored
    } else if op.meta.is_none() || op.blob_path.is_none() || !op.blob_exists {
        OpFate::Lost
    } else {
        OpFate::Serves
    }
}

/// The queued writes after the rows were loaded on top of `had`.
pub open spec fn loaded(had: Map<Uid, PendingRevision>, ops: Seq<LoadedOp>) -> Map<
    Uid,
    PendingRevision,
>
    decreases ops.len(),
{
    if ops.len() == 0 {
        had
    } else {
        let op = ops.last();
        let rest = loaded(had, ops.drop_last());
        if fate_of(op) is Serves {
            rest.insert(
                uid_written(op.uid@)->0,
                PendingRevision { path: op.blob_path->0, meta: op.meta->0 },
            )
        } else {
            rest
        }
    }
}

/// The nodes that are hidden after the rows were loaded: those being trashed.
pub open spec fn hidden_after(had: Set<Uid>, ops: Seq<LoadedOp>) -> Set<Uid>
    decreases ops.len(),
{
    if ops.len() == 0 {
        had
    } else {
        let op = ops.last();
        let rest = hidden_after(had, ops.drop_last());
        if op.kind == OpKind::Trash && uid_written(op.uid@) is Some {
            rest.insert(uid_written(op.uid@)->0)
        } else {
            rest
        }
    }
}

/// The rows that go, in order, each with whether its node goes too.
pub open spec fn dropped_by(ops: Seq<LoadedOp>) -> Seq<(i64, bool)>
    decreases ops.len(),
{
    if ops.len() == 0 {
        seq![]
    } else {
        let op = ops.last();
        let rest = dropped_by(ops.drop_last());
        match fate_of(op) {
            OpFate::Unaddressed => rest.push((op.id, false)),
            OpFate::Lost => rest.push((op.id, (uid_written(op.uid@)->0).is_local())),
            _ => rest,
        }
    }
}

/// The number of rows that stay.
pub open spec fn staying(ops: Seq<LoadedOp>) -> nat
    decreases ops.len(),
{
    if ops.len() == 0 {
        0
    } else {
        staying(ops.drop_last()) + match fate_of(ops.last()) {
            OpFate::Restored => 1nat,
            OpFate::Serves => 1nat,
            _ => 0nat,
        }
    }
}

proof fn lemma_staying(ops: Seq<LoadedOp>)
    ensures
        staying(ops) <= ops.len(),
        staying(ops) + dropped_by(ops).len() == ops.len(),
    decreases ops.len(),
{
    if ops.len() > 0 {
        lemma_staying(ops.drop_last());
    }
}

/// What loading the queue came to.
pub struct HydratedOps {
    /// The rows to delete, each with whether its node is to be deleted too.
    pub dropped: Vec<(i64, bool)>,
    pub restored: usize,
}

/// Load the queue back. Reads of a file with a queued write are served from its
/// blob, so that write goes into `pending`; a node being trashed goes into
/// `hidden`.
pub fn hydrate_pending(
    ops: Vec<LoadedOp>,
    pending: &mut UidMap<PendingRevision>,
    hidden: &mut UidSet,
) -> (r: HydratedOps)
    ensures
        final(pending)@ == loaded(old(pending)@, ops@),
        final(hidden)@ == hidden_after(old(hidden)@, ops@),
        r.dropped@ == dropped_by(ops@),
        r.restored == staying(ops@),
{
    let ghost all = ops@;
    let total: usize = ops.len();
    let mut ops = ops;
    let mut dropped: Vec<(i64, bool)> = Vec::new();
    let mut restored: usize = 0;
    let ghost mut i: int = 0;
    assert(all.take(0) =~= Seq::<LoadedOp>::empty());
    assert(all.skip(0) =~= all);
    while ops.len() > 0
        invariant
            0 <= i <= all.len(),
            all.len() == total,
            ops@ == all.skip(i),
            pending@ == loaded(old(pending)@, all.take(i)),
            hidden@ == hidden_after(old(hidden)@, all.take(i)),
            dropped@ == dropped_by(all.take(i)),
            restored == staying(all.take(i)),
        decreases ops@.len(),
    {
        let op = ops.remove(0);
        proof {
            assert(op == all[i]);
            assert(ops@ =~= all.skip(i + 1));
            assert(all.take(i + 1).drop_last() =~= all.take(i));
            assert(all.take(i + 1).last() == op);
            lemma_staying(all.take(i));
        }
        let fate = op_fate(&op);
        match parse_node_uid(op.uid.as_str()) {
            None => {
                dropped.push((op.id, false));
            },
            Some(uid) => {
                if op.kind == OpKind::Trash {
                    hidden.insert(uid.clone());
                }
                match fate {
                    OpFate::Unaddressed => {},
                    OpFate::Restored => {
                        restored = restored + 1;
                    },
                    OpFate::Lost => {
                        dropped.push((op.id, is_local_uid(&uid)));
                    },
                    OpFate::Serves => {
                        restored = restored + 1;
                        if let (Some(path), Some(meta)) = (op.blob_path, op.meta) {
                            pending.insert(uid, PendingRevision { path, meta });
                        }
                    },
                }
            },
        }
        proof {
            i = i + 1;
        }
    }
    assert(all.take(i) =~= all);
    HydratedOps { dropped, restored }
}

/// Every row of the queue either stays or goes, and a row goes only when its node
/// cannot be named or its bytes are lost.
pub proof fn law_every_row_is_accounted_for(ops: Seq<LoadedOp>, i: int)
    requires
        0 <= i < ops.len(),
    ensures
        staying(ops) + dropped_by(ops).len() == ops.len(),
        fate_of(ops[i]) is Lost ==> (ops[i].kind == OpKind::Revision || ops[i].blob_path is Some)
            && (ops[i].meta is None || ops[i].blob_path is None || !ops[i].blob_exists),
{
    lemma_staying(ops);
}

/// What becomes of a staged blob.
#[derive(Debug, Clone, Copy, PartialEq, Eq, Structural)]
pub enum OrphanVerdict {
    /// A queued row refers to it.
    Claimed,
    /// Nothing says which node of the remote it belongs to: it is kept.
    Unaddressable,
    /// A newer write of the node is queued: it is kept.
    Superseded,
    /// It is queued as a revision of its node.
    Queue,
}

/// Whether one of `texts` is `s`.
pub open spec fn among(texts: Seq<String>, s: Seq<char>) -> bool {
    exists|i: int| 0 <= i < texts.len() && (#[trigger] texts[i])@ == s
}

/// Whether one of `texts` is `s`.
pub fn is_among(texts: &Vec<String>, s: &str) -> (r: bool)
    ensures
        r == among(texts@, s@),
{
    let mut i: usize = 0;
    while i < texts.len()
        invariant
            i <= texts@.len(),
            forall|k: int| 0 <= k < i ==> (#[trigger] texts@[k])@ != s@,
        decreases texts@.len() - i,
    {
        if same_text(texts[i].as_str(), s) {
            return true;
        }
        i = i + 1;
    }
    false
}

/// The node that a staged blob belongs to, if it can be addressed: the remote
/// does not know a placeholder.
pub open spec fn orphan_node(meta: Option<StagedWrite>) -> Option<Uid> {
    match meta {
        None => None,
        Some(m) => match uid_written(m.uid@) {
            None => None,
            Some(u) => if u.is_local() {
                None
            } else {
                Some(u)
            },
        },
    }
}

/// What becomes of a staged blob.
pub open spec fn verdict_of(
    blob: Seq<char>,
    meta: Option<StagedWrite>,
    claimed: Seq<String>,
    pending: Map<Uid, PendingRevision>,
) -> OrphanVerdict {
    if among(claimed, blob) {
        OrphanVerdict::Claimed
    } else if orphan_node(meta) is None {
        OrphanVerdict::Unaddressable
    } else if pending.dom().contains(orphan_node(meta)->0) {
        OrphanVerdict::Superseded
    } else {
        OrphanVerdict::Queue
    }
}

/// What becomes of a staged blob, and the node it is queued for.
pub fn reconcile_staging(
    blob: &str,
    meta: &Option<StagedWrite>,
    claimed: &Vec<String>,
    pending: &UidMap<PendingRevision>,
) -> (r: (OrphanVerdict, Option<NodeUid>))
    ensures
        r.0 == verdict_of(blob@, *meta, claimed@, pending@),
        r.0 is Queue <==> r.1 is Some,
        r.1 is Some ==> orphan_node(*meta) == Some((r.1->0)@),
{
    if is_among(claimed, blob) {
        return (OrphanVerdict::Claimed, None);
    }
    match meta {
        None => (OrphanVerdict::Unaddressable, None),
        Some(m) => match parse_node_uid(m.uid.as_str()) {
            None => (OrphanVerdict::Unaddressable, None),
            Some(uid) => if is_local_uid(&uid) {
                (OrphanVerdict::Unaddressable, None)
            } else if pending.contains_key(&uid) {
                (OrphanVerdict::Superseded, None)
            } else {
                (OrphanVerdict::Queue, Some(uid))
            },
        },
    }
}

/// How many orphans were queued, and how many are kept for a human.
#[derive(Debug, Clone, Copy, PartialEq, Eq, Structural)]
pub struct StagingTally {
    pub queued: usize,
    pub stranded: usize,
}

/// Count an orphan that is kept. A claimed blob is no orphan.
pub fn count_stranded(tally: &mut StagingTally, verdict: OrphanVerdict)
    requires
        old(tally).stranded < usize::MAX,
    ensures
        final(tally).queued == old(tally).queued,
        final(tally).stranded == old(tally).stranded + (if verdict is Unaddressable
            || verdict is Superseded {
            1int
        } else {
            0
        }),
{
    match verdict {
        OrphanVerdict::Unaddressable | OrphanVerdict::Superseded => {
            tally.stranded = tally.stranded + 1;
        },
        _ => {},
    }
}

/// Count an orphan for which a row was to be written. Once the row is there the
/// blob is the file's content.
pub fn settle_orphan(
    tally: &mut StagingTally,
    pending: &mut UidMap<PendingRevision>,
    uid: NodeUid,
    blob: String,
    meta: StagedWrite,
    row_written: bool,
)
    requires
        old(tally).queued < usize::MAX,
        old(tally).stranded < usize::MAX,
    ensures
        row_written ==> final(pending)@ == old(pending)@.insert(
            uid@,
            PendingRevision { path: blob, meta },
        ) && final(tally).queued == old(tally).queued + 1 && final(tally).stranded == old(
            tally,
        ).stranded,
        !row_written ==> final(pending)@ == old(pending)@ && final(tally).queued == old(
            tally,
        ).queued && final(tally).stranded == old(tally).stranded + 1,
{
    if row_written {
        pending.insert(uid, PendingRevision { path: blob, meta });
        tally.queued = tally.queued + 1;
    } else {
        tally.stranded = tally.stranded + 1;
    }
}

/// A blob is never uploaded over a newer queued write, and never for a node that
/// the remote does not know.
pub proof fn law_orphans_are_queued_safely(
    blob: Seq<char>,
    meta: Option<StagedWrite>,
    claimed: Seq<String>,
    pending: Map<Uid, PendingRevision>,
)
    requires
        verdict_of(blob, meta, claimed, pending) is Queue,
    ensures
        orphan_node(meta) is Some,
        !(orphan_node(meta)->0).is_local(),
        !pending.dom().contains(orphan_node(meta)->0),
        !among(claimed, blob),
{
}

/// What becomes of a write that was made durable but never released.
#[derive(Debug)]
pub enum RecoveredVerdict {
    /// Its node cannot be named: the bytes are kept.
    Unaddressed,
    /// An earlier write of the node is undrained, and this one has gaps: it waits
    /// for the queue to clear.
    Wait,
    /// It is queued as a write of its node.
    Enqueue(NodeUid),
}

/// What becomes of a write that was made durable but never released.
pub fn recover_fsynced_write(meta: &StagedWrite, pending: &UidMap<PendingRevision>) -> (r:
    RecoveredVerdict)
    ensures
        match uid_written(meta.uid@) {
            None => r is Unaddressed,
            Some(u) => if !meta.complete && pending@.dom().contains(u) {
                r is Wait
            } else {
                r matches RecoveredVerdict::Enqueue(uid) && uid@ == u
            },
        },
{
    match parse_node_uid(meta.uid.as_str()) {
        None => RecoveredVerdict::Unaddressed,
        Some(uid) => if !meta.complete && pending.contains_key(&uid) {
            RecoveredVerdict::Wait
        } else {
            RecoveredVerdict::Enqueue(uid)
        },
    }
}

/// Whether the description of a recovered write is retired: it was queued, or its
/// blob is no longer where the description says.
pub fn retires_recovered(queued: bool, blob_exists: bool) -> (r: bool)
    ensures
        r == (queued || !blob_exists),
{
    queued || !blob_exists
}

/// Whether losing a row's bytes takes its node as well: one that exists only
/// locally has no other copy.
pub fn drop_unrecoverable_op(uid: &NodeUid) -> (r: bool)
    ensures
        r == uid@.is_local(),
{
    is_local_uid(uid)
}

/// What becomes of a queued row: one that no node can be read from goes; one that needs no
/// bytes stays; one whose bytes are there is served; and one that lost them goes.
pub proof fn law_rows_without_bytes_are_lost(op: LoadedOp)
    ensures
        fate_of(op) is Unaddressed <==> uid_written(op.uid@) is None,
        fate_of(op) is Serves <==> uid_written(op.uid@) is Some && op.blob_path is Some && op.meta
            is Some && op.blob_exists,
        op.kind == OpKind::Revision && !(op.blob_path is Some && op.meta is Some && op.blob_exists)
            ==> !(fate_of(op) is Restored) && !(fate_of(op) is Serves),
        fate_of(op) is Restored <==> uid_written(op.uid@) is Some && op.blob_path is None && op.kind
            != OpKind::Revision,
{
}

/// Of each node the last row that has bytes is served; a node that no such row names is
/// served as before.
pub proof fn law_last_row_is_served(
    had: Map<Uid, PendingRevision>,
    ops: Seq<LoadedOp>,
    i: int,
    uid: Uid,
)
    ensures
        (0 <= i < ops.len() && fate_of(ops[i]) is Serves && uid_written(ops[i].uid@) == Some(uid)
            && forall|j: int|
            i < j < ops.len() ==> !(fate_of(#[trigger] ops[j]) is Serves && uid_written(
                ops[j].uid@,
            ) == Some(uid))) ==> loaded(had, ops).contains_key(uid) && loaded(had, ops)[uid].path
            == ops[i].blob_path->0 && loaded(had, ops)[uid].meta == ops[i].meta->0,
        (forall|j: int|
            0 <= j < ops.len() ==> !(fate_of(#[trigger] ops[j]) is Serves && uid_written(
                ops[j].uid@,
            ) == Some(uid))) ==> (loaded(had, ops).contains_key(uid) <==> had.contains_key(uid))
            && (had.contains_key(uid) ==> loaded(had, ops)[uid] == had[uid]),
    decreases ops.len(),
{
    if ops.len() > 0 {
        let rest = ops.drop_last();
        law_last_row_is_served(had, rest, i, uid);
        assert(forall|j: int| 0 <= j < rest.len() ==> #[trigger] rest[j] == ops[j]);
        assert(ops[ops.len() - 1] == ops.last());
    }
}

/// A node is hidden just where it was, or where a row says that it goes to the trash.
pub proof fn law_trashed_rows_hide_their_nodes(had: Set<Uid>, ops: Seq<LoadedOp>, uid: Uid)
    ensures
        hidden_after(had, ops).contains(uid) <==> had.contains(uid) || exists|i: int|
            0 <= i < ops.len() && (#[trigger] ops[i]).kind == OpKind::Trash && uid_written(
                ops[i].uid@,
            ) == Some(uid),
    decreases ops.len(),
{
    if ops.len() > 0 {
        let rest = ops.drop_last();
        law_trashed_rows_hide_their_nodes(had, rest, uid);
        if hidden_after(had, rest).contains(uid) && !had.contains(uid) {
            let i = choose|i: int|
                0 <= i < rest.len() && (#[trigger] rest[i]).kind == OpKind::Trash && uid_written(
                    rest[i].uid@,
                ) == Some(uid);
            assert(ops[i] == rest[i]);
        }
        assert(ops[ops.len() - 1] == ops.last());
        if exists|i: int|
            0 <= i < ops.len() && (#[trigger] ops[i]).kind == OpKind::Trash && uid_written(
                ops[i].uid@,
            ) == Some(uid) {
            let i = choose|i: int|
                0 <= i < ops.len() && (#[trigger] ops[i]).kind == OpKind::Trash && uid_written(
                    ops[i].uid@,
                ) == Some(uid);
            if i < rest.len() {
                assert(rest[i] == ops[i]);
            }
        }
    }
}

/// The rows that go are those that cannot be read or lost their bytes, in order, and of
/// each it is said whether a file that was never made goes with it. All others stay.
pub proof fn law_lost_rows_are_dropped(ops: Seq<LoadedOp>)
    ensures
        dropped_by(ops) == ops.filter(
            |o: LoadedOp| fate_of(o) is Unaddressed || fate_of(o) is Lost,
        ).map_values(
            |o: LoadedOp|
                (o.id, uid_written(o.uid@) is Some && (uid_written(o.uid@)->0).is_local()),
        ),
        dropped_by(ops).len() + staying(ops) == ops.len(),
    decreases ops.len(),
{
    reveal(Seq::filter);
    if ops.len() > 0 {
        law_lost_rows_are_dropped(ops.drop_last());
    }
    assert(dropped_by(ops) =~= ops.filter(
        |o: LoadedOp| fate_of(o) is Unaddressed || fate_of(o) is Lost,
    ).map_values(
        |o: LoadedOp| (o.id, uid_written(o.uid@) is Some && (uid_written(o.uid@)->0).is_local()),
    ));
}

/// A staged file that nothing claims is queued just where it names a node of the remote
/// that no write waits for.
pub proof fn law_unclaimed_bytes_are_queued(
    blob: Seq<char>,
    meta: Option<StagedWrite>,
    claimed: Seq<String>,
    pending: Map<Uid, PendingRevision>,
)
    ensures
        verdict_of(blob, meta, claimed, pending) is Claimed <==> exists|i: int|
            0 <= i < claimed.len() && (#[trigger] claimed[i])@ == blob,
        verdict_of(blob, meta, claimed, pending) is Queue <==> {
            &&& forall|i: int| 0 <= i < claimed.len() ==> (#[trigger] claimed[i])@ != blob
            &&& meta is Some && uid_written((meta->0).uid@) is Some
            &&& !(uid_written((meta->0).uid@)->0).is_local()
            &&& !pending.contains_key(uid_written((meta->0).uid@)->0)
        },
        verdict_of(blob, meta, claimed, pending) is Superseded ==> meta is Some && uid_written(
            (meta->0).uid@,
        ) is Some && pending.contains_key(uid_written((meta->0).uid@)->0),
{
}

} // verus!

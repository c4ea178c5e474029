//! Whether a queued write may still be applied, and what a landed upload changes.
//!
//! A queued write is an edit of one revision. If the remote has moved on from that
//! revision the bytes are kept as a copy, unless what the remote has is a revision
//! that this daemon uploaded itself.

use crate::node::{node_revision_id, node_size, Node, NodeKind};
use crate::ops::opt_view;
use crate::paths::{path_components, same_path};
use crate::staging::{Baseline, PendingRevision, StagedWrite};
use crate::text::{
    concat2, concat4, concat5, decimal, decimal_text, same_text, signed_decimal,
    signed_decimal_text,
};
use crate::uid::{parse_node_uid, same_uid, uid_written, NodeUid, Uid};
use crate::uidmap::UidMap;
use vstd::prelude::*;

verus! {

/// The identity of the revision that a node has.
pub open spec fn revision_of(node: Node) -> Option<String> {
    match node.kind {
        NodeKind::Folder => None,
        NodeKind::File { active_revision_id, .. } => active_revision_id,
    }
}

/// Whether the remote moved on from `base`. Where both sides name their revision,
/// the names decide; else the modification time and the size do.
pub open spec fn moved_on(base: Baseline, node: Node) -> bool {
    match (base.revision_id, revision_of(node)) {
        (Some(a), Some(b)) => a@ != b@,
        _ => node.modification_time != base.mtime || node.kind.size() != base.size,
    }
}

/// How it is told that the remote moved on.
pub open spec fn moved_on_words(base: Baseline, node: Node) -> Seq<char> {
    "the remote revision changed under the queued write ("@ + (match (
        base.revision_id,
        revision_of(node),
    ) {
        (Some(a), Some(b)) => "based on revision "@ + a@ + ", remote now at "@ + b@ + ")"@,
        _ => "expected "@ + decimal(base.size as nat) + " bytes at mtime "@ + signed_decimal(
            base.mtime as int,
        ) + ", found "@ + (decimal(node.kind.size() as nat) + " at "@ + signed_decimal(
            node.modification_time as int,
        ) + ")"@),
    })
}

/// Whether the remote moved on from the revision that a queued write was made
/// against, and if so, how that is told.
pub fn revision_changed(base: &Baseline, node: &Node) -> (r: Option<String>)
    ensures
        r is Some <==> moved_on(*base, *node),
        r is Some ==> (r->0)@ == moved_on_words(*base, *node),
{
    let size: u64 = node_size(node);
    match (&base.revision_id, node_revision_id(node)) {
        (Some(a), Some(b)) => {
            if same_text(a.as_str(), b.as_str()) {
                return None;
            }
            let tail = concat5(
                "based on revision ",
                a.as_str(),
                ", remote now at ",
                b.as_str(),
                ")",
            );
            Some(concat2("the remote revision changed under the queued write (", tail.as_str()))
        },
        _ => {
            if node.modification_time == base.mtime && size == base.size {
                return None;
            }
            let found = concat4(
                decimal_text(size).as_str(),
                " at ",
                signed_decimal_text(node.modification_time).as_str(),
                ")",
            );
            let head = concat5(
                "expected ",
                decimal_text(base.size).as_str(),
                " bytes at mtime ",
                signed_decimal_text(base.mtime).as_str(),
                ", found ",
            );
            let tail = concat2(head.as_str(), found.as_str());
            Some(concat2("the remote revision changed under the queued write (", tail.as_str()))
        },
    }
}

/// Whether a write that found the remote moved on only chains onto what this daemon
/// uploaded itself. The write must be the whole file: the gaps of another one are
/// still those of the old base.
pub fn is_own_self_supersede(
    complete: bool,
    remote_rev: Option<&str>,
    own_rev: Option<&str>,
) -> (r: bool)
    ensures
        r == (complete && (match (remote_rev, own_rev) {
            (Some(a), Some(b)) => a@ == b@,
            _ => false,
        })),
{
    if !complete {
        return false;
    }
    match (remote_rev, own_rev) {
        (Some(a), Some(b)) => same_text(a, b),
        _ => false,
    }
}

/// Why a queued write must not be applied, if it must not be. `remote` is the node
/// as the remote has it, and `own` the last revision that this daemon uploaded.
pub open spec fn conflict_of(
    meta: StagedWrite,
    remote: Option<Node>,
    own: Option<Seq<char>>,
) -> Option<Seq<char>> {
    match meta.based_on {
        None => None,
        Some(base) => match remote {
            None => Some("the file no longer exists remotely"@),
            Some(node) => if node.trashed {
                Some("the file was trashed remotely"@)
            } else if !moved_on(base, node) {
                None
            } else if meta.complete && own is Some && opt_view(revision_of(node)) == own {
                None
            } else {
                Some(moved_on_words(base, node))
            },
        },
    }
}

/// Why a queued write must not be applied, if it must not be. A write without a
/// baseline has nothing to compare and is applied.
pub fn revision_conflict(meta: &StagedWrite, remote: &Option<Node>, own_rev: &Option<String>) -> (r:
    Option<String>)
    ensures
        opt_view(r) == conflict_of(*meta, *remote, opt_view(*own_rev)),
{
    let base = match &meta.based_on {
        None => {
            return None;
        },
        Some(b) => b,
    };
    let node = match remote {
        None => {
            return Some("the file no longer exists remotely".to_owned());
        },
        Some(n) => n,
    };
    if node.trashed {
        return Some("the file was trashed remotely".to_owned());
    }
    let reason = match revision_changed(base, node) {
        None => {
            return None;
        },
        Some(reason) => reason,
    };
    let remote_rev = node_revision_id(node);
    let a: Option<&str> = match &remote_rev {
        Some(s) => Some(s.as_str()),
        None => None,
    };
    let b: Option<&str> = match own_rev {
        Some(s) => Some(s.as_str()),
        None => None,
    };
    if is_own_self_supersede(meta.complete, a, b) {
        return None;
    }
    Some(reason)
}

/// A write is applied to its node only where that loses nothing: the remote still
/// has the revision that the write was made against, or a revision that this
/// daemon uploaded and the write is the whole file.
pub proof fn law_applied_writes_lose_nothing(
    meta: StagedWrite,
    remote: Option<Node>,
    own: Option<Seq<char>>,
)
    requires
        meta.based_on is Some,
        conflict_of(meta, remote, own) is None,
    ensures
        remote is Some,
        !(remote->0).trashed,
        !moved_on(meta.based_on->0, remote->0) || (meta.complete && own is Some && opt_view(
            revision_of(remote->0),
        ) == own),
{
}

/// The server restamping the time of a revision is no conflict: with a name on both
/// sides, only another name is.
pub proof fn law_same_revision_is_no_conflict(base: Baseline, node: Node)
    requires
        base.revision_id is Some,
        revision_of(node) is Some,
        (base.revision_id->0)@ == (revision_of(node)->0)@,
    ensures
        !moved_on(base, node),
{
}

/// What becomes of a creation that is parked under a transient name.
#[derive(Debug, Clone, Copy, PartialEq, Eq, Structural)]
pub enum ParkVerdict {
    /// The rename that it waits for may still come.
    Keep,
    /// Nothing will rename it now: the bytes go up as they are.
    Release,
}

/// What becomes of a parked creation: it is released once it is `expiry`
/// milliseconds old and nobody has it open.
pub fn park_verdict(created_at: i64, now: i64, open: bool, expiry: i64) -> (r: ParkVerdict)
    ensures
        r == (if open || now - created_at < expiry {
            ParkVerdict::Keep
        } else {
            ParkVerdict::Release
        }),
{
    if open || now as i128 - (created_at as i128) < expiry as i128 {
        return ParkVerdict::Keep;
    }
    ParkVerdict::Release
}

/// What a sweep does with a parked creation.
#[derive(Debug, Clone, Copy, PartialEq, Eq, Structural)]
pub enum ParkSweep {
    Skip,
    /// Its file was deleted: the row and its bytes go.
    Drop,
    Release,
}

/// What a sweep does with a parked creation. `known` is whether its node is still
/// in the tree: a failure to tell is never taken for a deletion.
pub fn sweep_parked_create(
    uid: &str,
    known: Result<bool, ()>,
    created_at: i64,
    now: i64,
    open: bool,
    expiry: i64,
) -> (r: ParkSweep)
    ensures
        r == (if uid_written(uid@) is None || known is Err {
            ParkSweep::Skip
        } else if !known->Ok_0 {
            ParkSweep::Drop
        } else if open || now - created_at < expiry {
            ParkSweep::Skip
        } else {
            ParkSweep::Release
        }),
{
    if parse_node_uid(uid).is_none() {
        return ParkSweep::Skip;
    }
    match known {
        Err(_) => ParkSweep::Skip,
        Ok(known) => {
            if !known {
                return ParkSweep::Drop;
            }
            match park_verdict(created_at, now, open, expiry) {
                ParkVerdict::Keep => ParkSweep::Skip,
                ParkVerdict::Release => ParkSweep::Release,
            }
        },
    }
}

/// Forget the queued write of `uid`, but only while it still has its blob at `blob`:
/// a newer write may have taken its place.
pub fn release_pending(pending: &mut UidMap<PendingRevision>, uid: &NodeUid, blob: &str)
    ensures
        final(pending)@ == (if old(pending)@.dom().contains(uid@) && path_components(
            old(pending)@[uid@].path@,
        ) == path_components(blob@) {
            old(pending)@.remove(uid@)
        } else {
            old(pending)@
        }),
{
    let own: bool = match pending.get(uid) {
        Some(p) => same_path(p.path.as_str(), blob),
        None => false,
    };
    if own {
        pending.remove(uid);
    }
}

/// The baseline that a node's own revision makes.
pub open spec fn baseline_at(node: Node) -> Baseline {
    Baseline {
        mtime: node.modification_time,
        size: node.kind.size(),
        hash: None,
        revision_id: revision_of(node),
    }
}

/// Point the queued write of `uid`, if there is one, at the revision that was just
/// uploaded. Without that the write would conflict with its own file.
pub fn rebaseline_pending(
    pending: &mut UidMap<PendingRevision>,
    uid: &NodeUid,
    sealed: &Node,
) -> (r: bool)
    ensures
        r == old(pending)@.dom().contains(uid@),
        final(pending)@ == (if r {
            let p = old(pending)@[uid@];
            old(pending)@.insert(
                uid@,
                PendingRevision {
                    path: p.path,
                    meta: StagedWrite { based_on: Some(baseline_at(*sealed)), ..p.meta },
                },
            )
        } else {
            old(pending)@
        }),
{
    match pending.remove(uid) {
        None => {
            assert(pending@ =~= old(pending)@);
            false
        },
        Some(p) => {
            let mut p = p;
            p.meta.based_on = Some(
                Baseline {
                    mtime: sealed.modification_time,
                    size: node_size(sealed),
                    hash: None,
                    revision_id: node_revision_id(sealed),
                },
            );
            pending.insert(uid.clone(), p);
            assert(pending@ =~= old(pending)@.insert(uid@, p));
            true
        },
    }
}

/// A write that was queued while an upload of its node was on the wire does not
/// conflict with that upload.
pub proof fn law_rebaselined_write_does_not_conflict(
    meta: StagedWrite,
    sealed: Node,
    own: Option<Seq<char>>,
)
    requires
        meta.based_on == Some(baseline_at(sealed)),
        !sealed.trashed,
    ensures
        conflict_of(meta, Some(sealed), own) is None,
{
}

/// The base that an open write handle was opened over.
#[derive(Debug)]
pub struct ActiveWrite {
    pub uid: NodeUid,
    pub base_mtime: i64,
    pub base_size: u64,
    pub base_revision_id: Option<String>,
}

/// An open handle after an upload of `uid` was sealed as `sealed`.
pub open spec fn rebased(h: ActiveWrite, uid: Uid, sealed: Node) -> ActiveWrite {
    if h.uid@ == uid {
        ActiveWrite {
            uid: h.uid,
            base_mtime: sealed.modification_time,
            base_size: sealed.kind.size(),
            base_revision_id: revision_of(sealed),
        }
    } else {
        h
    }
}

/// Point the open handles of `uid` at the revision that was just uploaded.
pub fn rebase_handles(handles: &mut Vec<ActiveWrite>, uid: &NodeUid, sealed: &Node)
    ensures
        final(handles)@.len() == old(handles)@.len(),
        forall|i: int|
            0 <= i < old(handles)@.len() ==> #[trigger] final(handles)@[i] == rebased(
                old(handles)@[i],
                uid@,
                *sealed,
            ),
{
    let mut i: usize = 0;
    while i < handles.len()
        invariant
            i <= handles@.len(),
            handles@.len() == old(handles)@.len(),
            forall|k: int|
                0 <= k < i ==> #[trigger] handles@[k] == rebased(old(handles)@[k], uid@, *sealed),
            forall|k: int| i <= k < handles@.len() ==> #[trigger] handles@[k] == old(handles)@[k],
        decreases handles@.len() - i,
    {
        if same_uid(&handles[i].uid, uid) {
            let h = ActiveWrite {
                uid: handles[i].uid.clone(),
                base_mtime: sealed.modification_time,
                base_size: node_size(sealed),
                base_revision_id: node_revision_id(sealed),
            };
            handles.set(i, h);
        }
        i = i + 1;
    }
}

/// A queued write conflicts just where the file is gone or in the trash, or where it moved
/// on and that was not the write itself. Where both revisions are known they decide alone,
/// and else time and size do.
pub proof fn law_conflicts_are_what_moved_on(
    meta: StagedWrite,
    remote: Option<Node>,
    own: Option<Seq<char>>,
)
    ensures
        meta.based_on is None ==> conflict_of(meta, remote, own) is None,
        meta.based_on is Some && remote is None ==> conflict_of(meta, remote, own) is Some,
        meta.based_on is Some && remote is Some && remote->0.trashed ==> conflict_of(
            meta,
            remote,
            own,
        ) is Some,
        meta.based_on is Some && remote is Some && !remote->0.trashed ==> {
            let base = meta.based_on->0;
            let node = remote->0;
            let seen = revision_of(node);
            let known = base.revision_id is Some && seen is Some;
            let ours = meta.complete && own is Some && seen is Some && (seen->0)@ == own->0;
            &&& known ==> (conflict_of(meta, remote, own) is Some <==> (base.revision_id->0)@ != (
            seen->0)@ && !ours)
            &&& !known ==> (conflict_of(meta, remote, own) is Some <==> (node.modification_time
                != base.mtime || node.kind.size() != base.size) && !ours)
        },
{
}

/// A handle that is open on a file that was just uploaded goes on from that upload: it does
/// not conflict with it. Handles on other files stay.
pub proof fn law_rebased_handles_do_not_conflict(h: ActiveWrite, uid: Uid, sealed: Node)
    ensures
        h.uid@ != uid ==> rebased(h, uid, sealed) == h,
        rebased(h, uid, sealed).uid == h.uid,
        h.uid@ == uid ==> !moved_on(
            Baseline {
                mtime: rebased(h, uid, sealed).base_mtime,
                size: rebased(h, uid, sealed).base_size,
                hash: None,
                revision_id: rebased(h, uid, sealed).base_revision_id,
            },
            sealed,
        ),
        !moved_on(baseline_at(sealed), sealed),
{
}

} // verus!

//! Changes to names and places: what they need, and what they leave in the tree.

use crate::access::{admits, require_rename_access};
use crate::error::{CoreError, Errno, ErrorKind};
use crate::names::{media_type, name_is_usable, usable_name};
use crate::node::{local_node, Node, NodeKind};
use crate::ops::{create_op, fresh_row, rename_op, OpKind, PendingOp, Row};
use crate::state::{contains_ino, law_interned_is_placed, State, Tree};
use crate::text::{concat2, concat3, debug_quoted, quoted};
use crate::uid::{
    is_local_uid, is_virtual_uid, mint_local_uid, minted, parse_uid, uid_written, NodeUid, Uid,
};
use crate::uidmap::{UidMap, UidSet};
use vstd::prelude::*;

verus! {

broadcast use vstd::std_specs::hash::group_hash_axioms;

/// Whether a rename is recorded as a desired end rather than done at once: the remote
/// cannot be asked, or does not know the destination yet.
pub fn rename_needs_queue(
    online: bool,
    destination_is_local: bool,
    parent_changed: bool,
    name_changed: bool,
) -> (r: bool)
    ensures
        r == (!online || destination_is_local),
{
    let _ = parent_changed;
    let _ = name_changed;
    !online || destination_is_local
}

/// Refuse a name that is empty or a path.
pub fn require_name(name: &str) -> (r: Result<(), CoreError>)
    ensures
        usable_name(name@) ==> r is Ok,
        !usable_name(name@) ==> (r matches Err(e) && e.reads(
            ErrorKind::Invalid,
            "invalid name: "@ + debug_quoted(name@),
        )),
{
    if !name_is_usable(name) {
        return Err(CoreError::invalid(concat2("invalid name: ", quoted(name).as_str())));
    }
    Ok(())
}

/// Whether `u` is the uid that a text names, and one that the remote can know.
pub open spec fn names_remote(raw: Seq<char>, u: Uid) -> bool {
    uid_written(raw) == Some(u) && !u.is_local() && !u.is_virtual()
}

/// Find a node by its uid, in any location: resident first, then mirrored. A uid that
/// is malformed, or that the remote cannot know, is refused, and nobody is asked about
/// it; of a node that is resident the mirror is not asked. `mirrored` fails with what
/// the lookup said.
pub fn resolve_anywhere_with<
    R: FnOnce(&NodeUid) -> bool,
    M: FnOnce(&NodeUid) -> Result<bool, String>,
>(raw_uid: &str, resident: R, mirrored: M) -> (r: Result<NodeUid, CoreError>)
    requires
        forall|u: &NodeUid|
            names_remote(raw_uid@, u@) ==> #[trigger] call_requires(resident, (u,)),
        forall|u: &NodeUid|
            names_remote(raw_uid@, u@) && call_ensures(resident, (u,), false)
                ==> #[trigger] call_requires(mirrored, (u,)),
    ensures
        match uid_written(raw_uid@) {
            None => r matches Err(e) && e.reads(ErrorKind::Invalid, "invalid uid: "@ + raw_uid@),
            Some(u) => if u.is_local() || u.is_virtual() {
                r matches Err(e) && e.reads(ErrorKind::Invalid, "reserved uid: "@ + raw_uid@)
            } else {
                exists|uid: NodeUid| #[trigger]
                    found_anywhere(uid, u, resident, mirrored, raw_uid@, r)
            },
        },
{
    let uid = match parse_uid(raw_uid) {
        None => {
            return Err(CoreError::invalid(concat2("invalid uid: ", raw_uid)));
        },
        Some(u) => u,
    };
    if is_local_uid(&uid) || is_virtual_uid(&uid) {
        return Err(CoreError::invalid(concat2("reserved uid: ", raw_uid)));
    }
    let ghost here = resident;
    let ghost there = mirrored;
    let ghost u = uid;
    if resident(&uid) {
        let r: Result<NodeUid, CoreError> = Ok(uid);
        assert(found_anywhere(u, u@, here, there, raw_uid@, r));
        return r;
    }
    let answer = mirrored(&uid);
    assert(call_ensures(there, (&u,), answer));
    let r: Result<NodeUid, CoreError> = match answer {
        Err(why) => Err(CoreError::internal(why)),
        Ok(true) => Ok(uid),
        Ok(false) => Err(
            CoreError::not_found(concat2("node is not present in any location: ", raw_uid)),
        ),
    };
    assert(found_anywhere(u, u@, here, there, raw_uid@, r));
    r
}

/// Whether `r` is what looking for `uid` comes to: it is found where it is resident,
/// else where it is mirrored. A lookup that failed is told in its own words.
pub open spec fn found_anywhere<
    R: FnOnce(&NodeUid) -> bool,
    M: FnOnce(&NodeUid) -> Result<bool, String>,
>(
    uid: NodeUid,
    u: Uid,
    resident: R,
    mirrored: M,
    raw: Seq<char>,
    r: Result<NodeUid, CoreError>,
) -> bool {
    &&& uid@ == u
    &&& call_ensures(resident, (&uid,), true) && r == Ok::<NodeUid, CoreError>(uid) || (
    call_ensures(resident, (&uid,), false) && match r {
        Ok(found) => found == uid && call_ensures(mirrored, (&uid,), Ok::<bool, String>(true)),
        Err(e) => (exists|why: String| #[trigger]
            call_ensures(mirrored, (&uid,), Err::<bool, String>(why)) && e.reads(
                ErrorKind::Internal,
                why@,
            )) || (call_ensures(mirrored, (&uid,), Ok::<bool, String>(false)) && e.reads(
            ErrorKind::NotFound,
            "node is not present in any location: "@ + raw,
        )),
    })
}

/// What is done about a node that a rename replaces.
#[derive(Debug, Clone, Copy, PartialEq, Eq, Structural)]
pub enum ReplaceStep {
    /// It was never created: drop what is queued for it, and forget it.
    DiscardQueued,
    /// Move it to the trash first.
    Trash,
    Refuse(Errno),
}

/// What is done about a node that a rename replaces. The remote knows no placeholder,
/// so there is nothing to trash.
pub fn remove_replaced(uid: &NodeUid, access: Result<(), Errno>) -> (r: ReplaceStep)
    ensures
        r == (if uid@.is_local() {
            ReplaceStep::DiscardQueued
        } else {
            match access {
                Ok(_) => ReplaceStep::Trash,
                Err(e) => ReplaceStep::Refuse(e),
            }
        }),
{
    if is_local_uid(uid) {
        return ReplaceStep::DiscardQueued;
    }
    match access {
        Ok(_) => ReplaceStep::Trash,
        Err(e) => ReplaceStep::Refuse(e),
    }
}

/// What becomes of a replaced node, once the trash answered and what was queued for it
/// was dropped. Only a node that is out of the way on both sides is forgotten.
pub fn replaced(trashed: bool, discarded: Result<(), Errno>) -> (r: Result<(), Errno>)
    ensures
        !trashed ==> r == Err::<(), Errno>(Errno::Io),
        trashed ==> r == discarded,
{
    if !trashed {
        return Err(Errno::Io);
    }
    discarded
}

/// Whether a replaced node is taken back out of the trash when the rename failed. One
/// that was never created cannot be.
pub fn restore_replaced(victim: Option<&NodeUid>) -> (r: bool)
    ensures
        r == (match victim {
            None => false,
            Some(uid) => !uid@.is_local(),
        }),
{
    match victim {
        None => false,
        Some(uid) => !is_local_uid(uid),
    }
}

/// Take a node out of the namespace on the user's word, if it may be written.
/// `replace_ops` stops its upload and writes the one row that stands for all that was
/// queued for it. Only then does what was queued go, the node is hidden until the remote
/// has it in the trash, and every mount loses it.
pub fn queue_trash<P, F: FnOnce() -> bool>(
    access: Result<(), Errno>,
    replace_ops: F,
    pending: &mut UidMap<P>,
    hidden: &mut UidSet,
    mounts: &mut Vec<State>,
    uid: &NodeUid,
) -> (r: Result<(), Errno>)
    requires
        access is Ok ==> call_requires(replace_ops, ()),
    ensures
        final(mounts)@.len() == old(mounts)@.len(),
        match r {
            Ok(_) => {
                &&& access is Ok
                &&& call_ensures(replace_ops, (), true)
                &&& final(pending)@ == old(pending)@.remove(uid@)
                &&& final(hidden)@ == old(hidden)@.insert(uid@)
                &&& forall|i: int|
                    0 <= i < old(mounts)@.len() ==> (#[trigger] final(mounts)@[i])@ == old(
                        mounts,
                    )@[i]@.unlinked_from(uid@) && (old(mounts)@[i]@.wf()
                        ==> final(mounts)@[i]@.wf())
            },
            Err(e) => {
                &&& access == Err::<(), Errno>(e) || (access is Ok && e == Errno::Io
                    && call_ensures(replace_ops, (), false))
                &&& *final(pending) == *old(pending)
                &&& *final(hidden) == *old(hidden)
                &&& *final(mounts) == *old(mounts)
            },
        },
{
    if let Err(e) = access {
        return Err(e);
    }
    if !replace_ops() {
        return Err(Errno::Io);
    }
    pending.remove(uid);
    hidden.insert(uid.clone());
    let ghost before = mounts@;
    let mut i: usize = 0;
    while i < mounts.len()
        invariant
            i <= mounts@.len(),
            mounts@.len() == before.len(),
            forall|k: int| i <= k < before.len() ==> #[trigger] mounts@[k] == before[k],
            forall|k: int|
                0 <= k < i ==> (#[trigger] mounts@[k])@ == before[k]@.unlinked_from(uid@) && (
                before[k]@.wf() ==> mounts@[k]@.wf()),
        decreases mounts@.len() - i,
    {
        assert(mounts@[i as int] == before[i as int]);
        mounts[i].unlink_mem(uid);
        i = i + 1;
    }
    Ok(())
}

/// Drop what is queued for a node.
pub fn discard_queued_ops<P>(pending: &mut UidMap<P>, uid: &NodeUid)
    ensures
        final(pending)@ == old(pending)@.remove(uid@),
{
    pending.remove(uid);
}

/// The folder that a queued rename remembers the node from: the one of an earlier
/// queued rename, where there is one. A row whose description cannot be read stops the
/// rename.
pub fn original_parent(earlier: Result<Option<String>, ()>, old_parent: &NodeUid) -> (r: Result<
    String,
    Errno,
>)
    ensures
        match earlier {
            Err(_) => r == Err::<String, Errno>(Errno::Io),
            Ok(Some(s)) => r == Ok::<String, Errno>(s),
            Ok(None) => r matches Ok(s) && s@ == old_parent@.text(),
        },
{
    match earlier {
        Err(_) => Err(Errno::Io),
        Ok(Some(s)) => Ok(s),
        Ok(None) => Ok(old_parent.to_text()),
    }
}

impl Tree {
    /// The tree after a new node was placed in a folder, at the end of its listing if
    /// that is resident.
    pub open spec fn created_in(self, parent: u64, node: Node) -> Tree {
        let t = self.interned(parent, node);
        let ino = self.ino_for(node.uid@);
        if t.listings.contains_key(parent) && !t.listings[parent].contains(ino) {
            Tree { listings: t.listings.insert(parent, t.listings[parent].push(ino)), ..t }
        } else {
            t
        }
    }
}

/// Place a folder that was just created.
pub fn create_folder(state: &mut State, parent: u64, node: Node) -> (ino: u64)
    requires
        old(state).next_ino < u64::MAX,
    ensures
        final(state)@ == old(state)@.created_in(parent, node),
        old(state)@.wf() ==> final(state)@.wf(),
        ino == old(state)@.ino_for(node.uid@),
{
    let ghost before = state@;
    let ino = state.intern_mem(parent, node);
    let ghost t = state@;
    match state.children.remove(&parent) {
        None => {
            assert(state@.listings =~= t.listings);
        },
        Some(kids) => {
            let mut kids = kids;
            let ghost had = kids@;
            assert(t.listings[parent] == had);
            if !contains_ino(&kids, ino) {
                kids.push(ino);
            }
            state.children.insert(parent, kids);
            assert(state@.listings =~= t.listings.insert(parent, kids@));
            assert(had.contains(ino) ==> state@.listings =~= t.listings);
        },
    }
    assert(state@ =~= before.created_in(parent, node));
    ino
}

/// Forget a node that was renamed, moved or trashed, so that it is read again. The
/// answer is the name it had, or nothing where it was not resident.
pub fn forget_moved(state: &mut State, uid: &NodeUid) -> (r: String)
    ensures
        final(state)@ == old(state)@.forgotten(uid@),
        old(state)@.wf() ==> final(state)@.wf(),
        r@ == (match old(state)@.dentry(uid@) {
            Some(d) => d.1,
            None => Seq::<char>::empty(),
        }),
{
    match state.forget(uid) {
        Some((_, name)) => name,
        None => {
            let s: String = String::new();
            assert(s@ =~= Seq::<char>::empty());
            s
        },
    }
}

/// What a move that reports its outcomes one by one comes to: the outcome of its one
/// node, or that there was none.
pub fn move_outcome(uid: &NodeUid, outcome: Option<Result<(), String>>) -> (r: Result<(), String>)
    ensures
        match outcome {
            Some(o) => r == o,
            None => r matches Err(e) && e@ == "move of "@ + uid@.text() + " reported no outcome"@,
        },
{
    match outcome {
        Some(o) => o,
        None => Err(concat3("move of ", uid.to_text().as_str(), " reported no outcome")),
    }
}

/// Whether `node` is the invented node `uid` below `parent`.
pub open spec fn is_invented(
    node: Node,
    uid: Uid,
    parent: Uid,
    name: Seq<char>,
    is_dir: bool,
    now: i64,
) -> bool {
    &&& node.uid@ == uid
    &&& node.parent_uid is Some && (node.parent_uid->0)@ == parent
    &&& node.name@ == name
    &&& match node.kind {
        NodeKind::Folder => is_dir,
        NodeKind::File {
            media_type: m,
            total_size_on_storage,
            active_revision_id,
            claimed_size,
            claimed_modification_time,
            content_sha1,
        } => !is_dir && m@ == media_type(name) && total_size_on_storage == 0
            && active_revision_id is None && claimed_size == Some(0i64)
            && claimed_modification_time is None && content_sha1 is None,
    }
    &&& node.creation_time == now
    &&& node.modification_time == now
    &&& !node.trashed
    &&& !node.is_shared
    &&& !node.is_shared_publicly
    &&& node.membership is None
    &&& node.album is None
}

/// Invent a node below `parent`, and the row that will make it real. `seq` counts the
/// nodes invented in this run, and `now_ms` is the time; a node under a transient name
/// is parked until `park_until`.
pub fn queue_local_node(
    access: Result<(), Errno>,
    parent: &NodeUid,
    name: &String,
    is_dir: bool,
    hold: bool,
    park_until: i64,
    now_ms: i64,
    seq: u64,
    now: i64,
) -> (r: Result<(PendingOp, Node), Errno>)
    ensures
        match r {
            Err(e) => access == Err::<(), Errno>(e),
            Ok((op, node)) => {
                let uid = minted(now_ms as int, seq as nat);
                &&& access is Ok
                &&& is_invented(node, uid, parent@, name@, is_dir, now)
                &&& op@ == (Row {
                    parent_uid: Some(parent@.text()),
                    name: Some(name@),
                    ..fresh_row(
                        if is_dir {
                            OpKind::Mkdir
                        } else {
                            OpKind::Create
                        },
                        uid.text(),
                        now_ms as int,
                        if hold {
                            park_until as int
                        } else {
                            0
                        },
                    )
                })
            },
        },
{
    if let Err(e) = access {
        return Err(e);
    }
    let uid = mint_local_uid(now_ms, seq);
    let op = create_op(&uid, parent, name.clone(), is_dir, hold, park_until, now_ms);
    let node = local_node(uid, parent.clone(), name.clone(), is_dir, now);
    Ok((op, node))
}

/// Record a rename as a desired end. The node, the folder it leaves and the folder it
/// enters must all be writable. `meta_json` tells the folder that the node was in
/// before it was first renamed.
pub fn queue_rename<F: Fn(&NodeUid) -> Result<(), Errno>>(
    require: F,
    uid: &NodeUid,
    old_parent: &NodeUid,
    new_parent: &NodeUid,
    new_name: String,
    meta_json: String,
    now: i64,
) -> (r: Result<PendingOp, Errno>)
    requires
        call_requires(require, (uid,)),
        admits(require, uid) ==> call_requires(require, (old_parent,)),
        admits(require, uid) && admits(require, old_parent) ==> call_requires(
            require,
            (new_parent,),
        ),
    ensures
        match r {
            Ok(op) => {
                &&& admits(require, uid)
                &&& admits(require, old_parent)
                &&& admits(require, new_parent)
                &&& op@ == (Row {
                    parent_uid: Some(new_parent@.text()),
                    name: Some(new_name@),
                    meta_json: Some(meta_json@),
                    ..fresh_row(OpKind::Rename, uid@.text(), now as int, 0)
                })
            },
            Err(e) => {
                ||| call_ensures(require, (uid,), Err(e))
                ||| admits(require, uid) && call_ensures(require, (old_parent,), Err(e))
                ||| admits(require, uid) && admits(require, old_parent) && call_ensures(
                    require,
                    (new_parent,),
                    Err(e),
                )
            },
        },
{
    match require_rename_access(require, uid, old_parent, new_parent) {
        Err(e) => Err(e),
        Ok(_) => Ok(rename_op(uid, new_parent, new_name, meta_json, now)),
    }
}

/// The tree after a node left some listings: it is forgotten, and the listings are read
/// again.
pub open spec fn left(t: Tree, uid: Uid, stale: Seq<u64>) -> Tree
    decreases stale.len(),
{
    if stale.len() == 0 {
        t.forgotten(uid)
    } else {
        let s = left(t, uid, stale.drop_last());
        Tree { listings: s.listings.remove(stale.last()), ..s }
    }
}

/// Take the remote's word that a node was renamed, moved or trashed: it is forgotten,
/// and the listings of the folders concerned are read again. The answer is the name it
/// had, or nothing where it was not resident.
pub fn move_to(state: &mut State, uid: &NodeUid, stale: &Vec<u64>) -> (r: String)
    ensures
        final(state)@ == left(old(state)@, uid@, stale@),
        old(state)@.wf() ==> final(state)@.wf(),
        r@ == (match old(state)@.dentry(uid@) {
            Some(d) => d.1,
            None => Seq::<char>::empty(),
        }),
{
    let name = forget_moved(state, uid);
    let mut i: usize = 0;
    assert(stale@.take(0) =~= Seq::<u64>::empty());
    while i < stale.len()
        invariant
            i <= stale@.len(),
            state@ == left(old(state)@, uid@, stale@.take(i as int)),
            old(state)@.wf() ==> state@.wf(),
        decreases stale@.len() - i,
    {
        assert(stale@.take(i + 1).drop_last() =~= stale@.take(i as int));
        assert(stale@.take(i + 1).last() == stale@[i as int]);
        state.invalidate_listing(stale[i]);
        i = i + 1;
    }
    assert(stale@.take(i as int) =~= stale@);
    name
}

/// A node that was moved away is found under its old name in no resident listing that
/// was concerned.
pub proof fn law_moved_node_is_read_again(t: Tree, uid: Uid, stale: Seq<u64>, i: int)
    requires
        0 <= i < stale.len(),
    ensures
        !left(t, uid, stale).by_uid.contains_key(uid),
        !left(t, uid, stale).listings.contains_key(stale[i]),
    decreases stale.len(),
{
    lemma_left(t, uid, stale);
    let rest = stale.drop_last();
    if i < stale.len() - 1 {
        law_moved_node_is_read_again(t, uid, rest, i);
        assert(rest[i] == stale[i]);
    }
}

proof fn lemma_left(t: Tree, uid: Uid, stale: Seq<u64>)
    ensures
        left(t, uid, stale).by_uid == t.forgotten(uid).by_uid,
    decreases stale.len(),
{
    if stale.len() > 0 {
        lemma_left(t, uid, stale.drop_last());
    }
}

/// A node that was made is found by its uid as it was given, in its folder, and once in the
/// folder's listing where that is known. Everything else stays.
pub proof fn law_created_node_is_listed(t: Tree, parent: u64, node: Node)
    requires
        t.wf(),
        t.next_ino < u64::MAX,
    ensures
        ({
            let s = t.created_in(parent, node);
            let ino = s.by_uid[node.uid@];
            &&& s.by_uid.contains_key(node.uid@) && s.entries.contains_key(ino)
            &&& s.entries[ino].node == node && s.entries[ino].parent == parent
                && !s.entries[ino].unlinked
            &&& t.listings.contains_key(parent) ==> s.listings.contains_key(parent)
                && s.listings[parent].contains(ino)
            &&& !t.listings.contains_key(parent) ==> !s.listings.contains_key(parent)
            &&& forall|d: u64|
                d != parent && #[trigger] t.listings.contains_key(d) ==> s.listings.contains_key(d)
                    && s.listings[d] == t.listings[d]
            &&& t.listings.contains_key(parent) ==> t.listings[parent].is_prefix_of(
                s.listings[parent],
            ) && s.listings[parent].len() <= t.listings[parent].len() + 1
            &&& forall|i: u64|
                i != ino && #[trigger] t.entries.contains_key(i) ==> s.entries.contains_key(i)
                    && s.entries[i] == t.entries[i]
        }),
{
    law_interned_is_placed(t, parent, node);
    let m = t.interned(parent, node);
    let ino = t.ino_for(node.uid@);
    if m.listings.contains_key(parent) && !m.listings[parent].contains(ino) {
        let had = m.listings[parent];
        assert(had.push(ino)[had.len() as int] == ino);
        assert(had.push(ino).take(had.len() as int) =~= had);
    }
    if t.listings.contains_key(parent) {
        assert(t.listings[parent].take(t.listings[parent].len() as int) =~= t.listings[parent]);
    }
}

/// A node that moved away is forgotten where it was, and the folders it went between are read
/// again. No other folder is, and no other node changes.
pub proof fn law_moving_changes_nothing_else(t: Tree, uid: Uid, stale: Seq<u64>, ino: u64)
    ensures
        ({
            let s = left(t, uid, stale);
            &&& s.entries == t.forgotten(uid).entries && s.by_uid == t.forgotten(uid).by_uid
            &&& s.listings.contains_key(ino) <==> t.forgotten(uid).listings.contains_key(ino)
                && !stale.contains(ino)
            &&& s.listings.contains_key(ino) ==> s.listings[ino] == t.forgotten(uid).listings[ino]
        }),
    decreases stale.len(),
{
    if stale.len() > 0 {
        let rest = stale.drop_last();
        law_moving_changes_nothing_else(t, uid, rest, ino);
        assert(stale =~= rest.push(stale.last()));
        if rest.contains(ino) {
            let i = choose|i: int| 0 <= i < rest.len() && rest[i] == ino;
            assert(stale[i] == ino);
        }
        if stale.contains(ino) && stale.last() != ino {
            let i = choose|i: int| 0 <= i < stale.len() && stale[i] == ino;
            assert(rest[i] == ino);
        }
        assert(stale[stale.len() - 1] == stale.last());
    }
}

/// A uid is resolved to itself just where a mount shows it or the index has it, and what the
/// index could not say is told.
pub proof fn law_uids_resolve_to_themselves<
    R: FnOnce(&NodeUid) -> bool,
    M: FnOnce(&NodeUid) -> Result<bool, String>,
>(
    uid: NodeUid,
    u: Uid,
    resident: R,
    mirrored: M,
    raw: Seq<char>,
    r: Result<NodeUid, CoreError>,
)
    requires
        found_anywhere(uid, u, resident, mirrored, raw, r),
    ensures
        r is Ok ==> (r->Ok_0)@ == u && (call_ensures(resident, (&uid,), true) || call_ensures(
            mirrored,
            (&uid,),
            Ok::<bool, String>(true),
        )),
        r is Err ==> call_ensures(resident, (&uid,), false) && ((r->Err_0).kind
            == ErrorKind::NotFound ==> call_ensures(mirrored, (&uid,), Ok::<bool, String>(false))),
{
}

/// Only a name of the remote is resolved: one that is kept for files that are not there yet,
/// or for the synthetic folder, is not.
pub proof fn law_reserved_uids_are_not_resolved(raw: Seq<char>, u: Uid)
    ensures
        names_remote(raw, u) <==> uid_written(raw) == Some(u) && !u.is_local() && !u.is_virtual(),
        u.is_local() || u.is_virtual() ==> !names_remote(raw, u),
{
}

/// A node that was made here and is not on the remote yet is an empty one of its name in its
/// folder, made now, shared with nobody and not in the trash.
pub proof fn law_invented_nodes_are_empty(
    node: Node,
    uid: Uid,
    parent: Uid,
    name: Seq<char>,
    is_dir: bool,
    now: i64,
)
    requires
        is_invented(node, uid, parent, name, is_dir, now),
    ensures
        node.uid@ == uid && node.name@ == name,
        node.parent_uid is Some && (node.parent_uid->0)@ == parent,
        node.kind is Folder <==> is_dir,
        node.kind.size() == 0,
        node.creation_time == now && node.modification_time == now,
        !node.trashed && !node.is_shared && !node.is_shared_publicly && node.membership is None,
        !is_dir ==> node.kind->active_revision_id is None,
{
}

} // verus!

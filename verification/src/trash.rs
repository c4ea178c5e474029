//! The trash: its listing, and what restoring and deleting from it comes to.

use crate::children::is_stale;
use crate::children::listing_stale;
use crate::error::{CoreError, ErrorKind};
use crate::listing::uids;
use crate::node::{node_size, Node};
use crate::state::{law_forgetting_takes_one_node, State, Tree};
use crate::text::concat2;
use crate::uid::{parse_uid, uid_written, NodeUid, Uid};
use crate::uidmap::UidSet;
use vstd::prelude::*;

verus! {

broadcast use vstd::std_specs::hash::group_hash_axioms;

/// How long a listing of the trash stays good, in milliseconds.
pub const TRASH_TTL: i64 = 60_000;

/// How many nodes of the trash are fetched at a time.
pub const TRASH_MATERIALIZE_CHUNK: usize = 150;

/// What a request for the trash does before it answers from disk.
#[derive(Debug, Clone, Copy, PartialEq, Eq, Structural)]
pub struct TrashPlan {
    /// Start a refresh, unless one is running.
    pub refresh: bool,
    /// Wait for a refresh for a while: there is nothing to show yet.
    pub wait: bool,
}

/// What a request for the trash does before it answers from disk. `stamp` is when
/// the trash was last fetched.
pub fn list_trash(stamp: Option<i64>, now: i64) -> (r: TrashPlan)
    ensures
        r.refresh == is_stale(stamp, now, TRASH_TTL),
        r.wait == (stamp is None),
        r.wait ==> r.refresh,
{
    TrashPlan { refresh: listing_stale(stamp, now, TRASH_TTL), wait: stamp.is_none() }
}

/// Whether a refresh is started: one at a time. The flag is up afterwards.
pub fn spawn_trash_refresh(refreshing: &mut bool) -> (r: bool)
    ensures
        r == !*old(refreshing),
        *final(refreshing),
{
    let start = !*refreshing;
    *refreshing = true;
    start
}

/// A node of the trash as it is stored.
#[derive(Debug)]
pub struct StoredTrash {
    pub uid: String,
    pub name: String,
    pub is_dir: bool,
    pub size: i64,
    pub mtime: i64,
}

/// Whether `t` stores `node`.
pub open spec fn stores(t: StoredTrash, node: Node) -> bool {
    &&& t.uid@ == node.uid@.text()
    &&& t.name == node.name
    &&& t.is_dir == node.kind is Folder
    &&& t.size == node.kind.size()
    &&& t.mtime == node.modification_time
}

proof fn lemma_size_fits(node: Node)
    ensures
        node.kind.size() <= i64::MAX,
{
}

/// Add a fetched batch to what is stored of the trash. What is stored is always a
/// leading part of the trash.
pub fn refresh_trash(items: &mut Vec<StoredTrash>, nodes: &Vec<Node>)
    ensures
        final(items)@.len() == old(items)@.len() + nodes@.len(),
        forall|i: int| 0 <= i < old(items)@.len() ==> #[trigger] final(items)@[i] == old(items)@[i],
        forall|i: int|
            0 <= i < nodes@.len() ==> stores(
                final(items)@[#[trigger] (old(items)@.len() + i)],
                nodes@[i],
            ),
{
    let ghost n = items@.len();
    let mut i: usize = 0;
    while i < nodes.len()
        invariant
            i <= nodes@.len(),
            n == old(items)@.len(),
            items@.len() == n + i,
            forall|k: int| 0 <= k < n ==> #[trigger] items@[k] == old(items)@[k],
            forall|k: int| 0 <= k < i ==> stores(items@[#[trigger] (n + k)], nodes@[k]),
        decreases nodes@.len() - i,
    {
        let node = &nodes[i];
        proof {
            lemma_size_fits(*node);
        }
        let t = StoredTrash {
            uid: node.uid.to_text(),
            name: node.name.clone(),
            is_dir: node.is_folder(),
            size: node_size(node) as i64,
            mtime: node.modification_time,
        };
        let ghost had = items@;
        items.push(t);
        assert(forall|k: int| 0 <= k < had.len() ==> items@[k] == had[k]);
        i = i + 1;
    }
}

/// An entry of a listing as a front-end is told of it.
#[derive(Debug)]
pub struct DirEntry {
    pub name: String,
    pub is_dir: bool,
    pub size: u64,
    pub modified: i64,
    pub pinned: bool,
    pub cached: bool,
    pub uid: String,
    pub path: String,
    pub role: String,
}

/// Whether `e` tells of the stored node: it is neither pinned nor cached, and has no
/// path.
pub open spec fn tells_trash(e: DirEntry, t: StoredTrash) -> bool {
    &&& e.name == t.name
    &&& e.is_dir == t.is_dir
    &&& e.size == (if t.size < 0 {
        0
    } else {
        t.size as int
    })
    &&& e.modified == t.mtime
    &&& !e.pinned
    &&& !e.cached
    &&& e.uid == t.uid
    &&& e.path@.len() == 0
    &&& e.role@.len() == 0
}

/// The trash as a front-end is told of it.
pub fn trash_entries(items: Vec<StoredTrash>) -> (r: Vec<DirEntry>)
    ensures
        r@.len() == items@.len(),
        forall|i: int| 0 <= i < items@.len() ==> tells_trash(#[trigger] r@[i], items@[i]),
{
    let ghost given = items@;
    let mut items = items;
    let mut out: Vec<DirEntry> = Vec::new();
    assert(given.skip(0) =~= given);
    while items.len() > 0
        invariant
            out@.len() <= given.len(),
            items@ == given.skip(out@.len() as int),
            forall|i: int| 0 <= i < out@.len() ==> tells_trash(#[trigger] out@[i], given[i]),
        decreases items@.len(),
    {
        let ghost at = out@.len() as int;
        let t = items.remove(0);
        assert(t == given[at]);
        assert(items@ =~= given.skip(at + 1));
        out.push(
            DirEntry {
                name: t.name,
                is_dir: t.is_dir,
                size: if t.size < 0 {
                    0
                } else {
                    t.size as u64
                },
                modified: t.mtime,
                pinned: false,
                cached: false,
                uid: t.uid,
                path: String::new(),
                role: String::new(),
            },
        );
    }
    out
}

/// The first text that is no uid.
pub open spec fn first_bad(texts: Seq<String>) -> Option<Seq<char>>
    decreases texts.len(),
{
    if texts.len() == 0 {
        None
    } else if uid_written(texts[0]@) is None {
        Some(texts[0]@)
    } else {
        first_bad(texts.skip(1))
    }
}

/// Read a batch of uids. One that is malformed refuses the whole batch, and so does
/// an empty batch.
pub fn parse_uids(texts: &Vec<String>) -> (r: Result<Vec<NodeUid>, CoreError>)
    ensures
        match r {
            Ok(list) => {
                &&& texts@.len() > 0
                &&& list@.len() == texts@.len()
                &&& forall|i: int|
                    0 <= i < texts@.len() ==> uid_written((#[trigger] texts@[i])@) == Some(
                        list@[i]@,
                    )
            },
            Err(e) => if texts@.len() == 0 {
                e.reads(ErrorKind::Invalid, "no nodes given"@)
            } else {
                first_bad(texts@) is Some && e.reads(
                    ErrorKind::Invalid,
                    "invalid uid: "@ + first_bad(texts@)->0,
                )
            },
        },
        texts@.len() > 0 && first_bad(texts@) is None ==> r is Ok,
{
    if texts.len() == 0 {
        return Err(CoreError::invalid("no nodes given".to_owned()));
    }
    let mut list: Vec<NodeUid> = Vec::new();
    let mut i: usize = 0;
    assert(texts@.skip(0) =~= texts@);
    while i < texts.len()
        invariant
            i <= texts@.len(),
            texts@.len() > 0,
            list@.len() == i,
            first_bad(texts@) == first_bad(texts@.skip(i as int)),
            forall|k: int|
                0 <= k < i ==> uid_written((#[trigger] texts@[k])@) == Some(list@[k]@),
        decreases texts@.len() - i,
    {
        assert(texts@.skip(i as int)[0] == texts@[i as int]);
        assert(texts@.skip(i as int).skip(1) =~= texts@.skip(i + 1));
        match parse_uid(texts[i].as_str()) {
            None => {
                return Err(CoreError::invalid(concat2("invalid uid: ", texts[i].as_str())));
            },
            Some(u) => {
                list.push(u);
            },
        }
        i = i + 1;
    }
    Ok(list)
}

/// What a batch comes to: how many nodes it did, and the first refusal.
#[derive(Debug, Clone, Copy, PartialEq, Eq, Structural)]
pub struct BatchTally {
    pub done: usize,
    pub refused: bool,
}

/// Count the outcome of one node of a batch.
pub fn count_outcome(tally: &mut BatchTally, ok: bool)
    requires
        old(tally).done < usize::MAX,
    ensures
        final(tally).done == old(tally).done + (if ok {
            1int
        } else {
            0
        }),
        final(tally).refused == (old(tally).refused || !ok),
{
    if ok {
        tally.done = tally.done + 1;
    } else {
        tally.refused = true;
    }
}

/// What a batch answers: how many nodes it did. A batch that did nothing because it
/// was refused fails.
pub fn batch_answer(tally: BatchTally) -> (r: Result<usize, ()>)
    ensures
        match r {
            Ok(n) => n == tally.done && (tally.done > 0 || !tally.refused),
            Err(_) => tally.done == 0 && tally.refused,
        },
{
    if tally.done == 0 && tally.refused {
        return Err(());
    }
    Ok(tally.done)
}

/// A node that was restored is shown again.
pub fn restore_node(hidden: &mut UidSet, uid: &NodeUid)
    ensures
        final(hidden)@ == old(hidden)@.remove(uid@),
{
    hidden.remove(uid);
}

/// The tree after the listings of `parents` were forgotten, where they are resident.
pub open spec fn listings_dropped(t: Tree, parents: Seq<Uid>) -> Tree
    decreases parents.len(),
{
    if parents.len() == 0 {
        t
    } else {
        let s = listings_dropped(t, parents.drop_last());
        if s.by_uid.contains_key(parents.last()) {
            Tree { listings: s.listings.remove(s.by_uid[parents.last()]), ..s }
        } else {
            s
        }
    }
}

/// Forget the listings of folders, so that what reappears in them is seen.
pub fn invalidate_children_of(state: &mut State, parents: &Vec<NodeUid>)
    ensures
        final(state)@ == listings_dropped(old(state)@, uids(parents@)),
        old(state)@.wf() ==> final(state)@.wf(),
{
    let mut i: usize = 0;
    assert(uids(parents@).take(0) =~= Seq::<Uid>::empty());
    while i < parents.len()
        invariant
            i <= parents@.len(),
            state@ == listings_dropped(old(state)@, uids(parents@).take(i as int)),
            old(state)@.wf() ==> state@.wf(),
        decreases parents@.len() - i,
    {
        assert(uids(parents@).take(i + 1).drop_last() =~= uids(parents@).take(i as int));
        assert(uids(parents@).take(i + 1).last() == parents@[i as int]@);
        if let Some(ino) = state.ino_of(&parents[i]) {
            state.invalidate_listing(ino);
        }
        i = i + 1;
    }
    assert(uids(parents@).take(i as int) =~= uids(parents@));
}

/// The tree after `gone` were forgotten.
pub open spec fn all_forgotten(t: Tree, gone: Seq<Uid>) -> Tree
    decreases gone.len(),
{
    if gone.len() == 0 {
        t
    } else {
        all_forgotten(t, gone.drop_last()).forgotten(gone.last())
    }
}

/// Forget every trace of nodes that no longer exist.
pub fn drop_local(state: &mut State, gone: &Vec<NodeUid>)
    ensures
        final(state)@ == all_forgotten(old(state)@, uids(gone@)),
        old(state)@.wf() ==> final(state)@.wf(),
{
    let mut i: usize = 0;
    assert(uids(gone@).take(0) =~= Seq::<Uid>::empty());
    while i < gone.len()
        invariant
            i <= gone@.len(),
            state@ == all_forgotten(old(state)@, uids(gone@).take(i as int)),
            old(state)@.wf() ==> state@.wf(),
        decreases gone@.len() - i,
    {
        assert(uids(gone@).take(i + 1).drop_last() =~= uids(gone@).take(i as int));
        assert(uids(gone@).take(i + 1).last() == gone@[i as int]@);
        let _ = state.forget(&gone[i]);
        i = i + 1;
    }
    assert(uids(gone@).take(i as int) =~= uids(gone@));
}

/// Nodes that were deleted for good are not resident any more.
pub proof fn law_dropped_nodes_are_gone(t: Tree, gone: Seq<Uid>, i: int)
    requires
        0 <= i < gone.len(),
    ensures
        !all_forgotten(t, gone).by_uid.contains_key(gone[i]),
    decreases gone.len(),
{
    let rest = gone.drop_last();
    if i < gone.len() - 1 {
        law_dropped_nodes_are_gone(t, rest, i);
        assert(rest[i] == gone[i]);
    }
}

/// The uid that is complained of is the first that cannot be read.
pub proof fn law_first_bad_uid_is_told(texts: Seq<String>)
    ensures
        match first_bad(texts) {
            Some(bad) => exists|i: int|
                0 <= i < texts.len() && (#[trigger] texts[i])@ == bad && uid_written(bad) is None
                    && forall|j: int| 0 <= j < i ==> uid_written((#[trigger] texts[j])@) is Some,
            None => forall|i: int|
                0 <= i < texts.len() ==> uid_written((#[trigger] texts[i])@) is Some,
        },
    decreases texts.len(),
{
    if texts.len() > 0 {
        let rest = texts.skip(1);
        assert(forall|j: int| 0 <= j < rest.len() ==> #[trigger] rest[j] == texts[j + 1]);
        if uid_written(texts[0]@) is Some {
            law_first_bad_uid_is_told(rest);
            match first_bad(rest) {
                Some(bad) => {
                    let i = choose|i: int|
                        0 <= i < rest.len() && (#[trigger] rest[i])@ == bad && uid_written(bad)
                            is None && forall|j: int|
                            0 <= j < i ==> uid_written((#[trigger] rest[j])@) is Some;
                    assert(texts[i + 1]@ == bad);
                    assert forall|j: int| 0 <= j < i + 1 implies uid_written(
                        (#[trigger] texts[j])@,
                    ) is Some by {
                        if j > 0 {
                            assert(rest[j - 1] == texts[j]);
                        }
                    }
                },
                None => {
                    assert forall|j: int| 0 <= j < texts.len() implies uid_written(
                        (#[trigger] texts[j])@,
                    ) is Some by {
                        if j > 0 {
                            assert(rest[j - 1] == texts[j]);
                        }
                    }
                },
            }
        } else {
            assert(texts[0]@ == texts[0]@);
        }
    }
}

/// A folder whose children changed is read again, and no other is; nothing but listings is
/// dropped.
pub proof fn law_only_named_listings_are_dropped(t: Tree, parents: Seq<Uid>, ino: u64)
    ensures
        ({
            let s = listings_dropped(t, parents);
            &&& s.listings.contains_key(ino) <==> t.listings.contains_key(ino) && forall|i: int|
                0 <= i < parents.len() ==> !(t.by_uid.contains_key(#[trigger] parents[i])
                    && t.by_uid[parents[i]] == ino)
            &&& s.listings.contains_key(ino) ==> s.listings[ino] == t.listings[ino]
            &&& s.entries == t.entries && s.by_uid == t.by_uid && s.share_access == t.share_access
                && s.next_ino == t.next_ino
        }),
    decreases parents.len(),
{
    if parents.len() > 0 {
        let rest = parents.drop_last();
        law_only_named_listings_are_dropped(t, rest, ino);
        let last = parents.len() - 1;
        assert(parents[last] == parents.last());
        let named = |p: Uid| t.by_uid.contains_key(p) && t.by_uid[p] == ino;
        if forall|i: int| 0 <= i < rest.len() ==> !named(#[trigger] rest[i]) {
            assert forall|i: int| 0 <= i < last implies !named(#[trigger] parents[i]) by {
                assert(rest[i] == parents[i]);
            }
        } else {
            let i = choose|i: int| 0 <= i < rest.len() && named(#[trigger] rest[i]);
            assert(parents[i] == rest[i]);
        }
    }
}

/// Forgetting nodes forgets no other: what has none of their uids stays as it is.
pub proof fn law_dropping_takes_no_other_node(t: Tree, gone: Seq<Uid>, uid: Uid)
    requires
        t.wf(),
        t.by_uid.contains_key(uid),
        forall|i: int| 0 <= i < gone.len() ==> #[trigger] gone[i] != uid,
    ensures
        all_forgotten(t, gone).wf(),
        all_forgotten(t, gone).by_uid.contains_key(uid),
        all_forgotten(t, gone).by_uid[uid] == t.by_uid[uid],
        t.entries.contains_key(t.by_uid[uid]) ==> all_forgotten(t, gone).entries.contains_key(
            t.by_uid[uid],
        ) && all_forgotten(t, gone).entries[t.by_uid[uid]] == t.entries[t.by_uid[uid]],
    decreases gone.len(),
{
    if gone.len() > 0 {
        let rest = gone.drop_last();
        assert(forall|i: int| 0 <= i < rest.len() ==> #[trigger] rest[i] == gone[i]);
        law_dropping_takes_no_other_node(t, rest, uid);
        let s = all_forgotten(t, rest);
        assert(gone[gone.len() - 1] == gone.last());
        if s.by_uid.contains_key(gone.last()) {
            law_forgetting_takes_one_node(s, gone.last());
        }
    }
}

/// A node in the trash is told of as it is, with no size below nothing; it has no path and
/// no role, and is neither pinned nor kept.
pub proof fn law_trash_tells_the_node(node: Node, t: StoredTrash, e: DirEntry)
    requires
        stores(t, node),
        tells_trash(e, t),
    ensures
        e.name == node.name,
        e.uid@ == node.uid@.text(),
        e.is_dir <==> node.kind is Folder,
        e.size == node.kind.size(),
        e.modified == node.modification_time,
        !e.pinned && !e.cached && e.path@.len() == 0 && e.role@.len() == 0,
{
}

} // verus!

//! The rules by which the queue is drained.
//!
//! A queued row is never dropped because it failed. A failure pushes the row past
//! now, so it cannot hold up the rows behind it; a row that may not be written
//! goes back on the clock without costing an attempt, until it has been blocked
//! for so long that it has to be reported.

use crate::access::WriteAuthority;
use crate::ops::{OpKind, PendingOp};
use crate::text::{concat2, concat4, debug_quoted, decimal, decimal_text, quoted};
use crate::uid::{parse_node_uid, same_uid, uid_written, NodeUid, Uid};
use crate::uidmap::UidMap;
use vstd::prelude::*;

verus! {

/// The first delay after a failure, in milliseconds.
pub const DRAIN_BACKOFF_MIN: u64 = 2_000;

/// The longest delay after a failure, in milliseconds.
pub const DRAIN_BACKOFF_MAX: u64 = 300_000;

/// How long an idle worker sleeps at most, in milliseconds.
pub const DRAIN_IDLE_POLL: u64 = 30_000;

/// How long a queued revision waits at least, in milliseconds.
pub const DRAIN_REVISION_DEBOUNCE: u64 = 2_000;

/// How long a queued revision waits at most, in milliseconds.
pub const DRAIN_REVISION_DEBOUNCE_MAX: u64 = 60_000;

/// For how many nodes the time of the last upload is remembered.
pub const UPLOAD_TIME_MEMORY: usize = 512;

/// The delay before a row that may not be written is looked at again, in
/// milliseconds.
pub const DRAIN_ACCESS_RECHECK: i64 = 5_000;

/// How long a row may stay blocked before that is reported, in milliseconds.
pub const DRAIN_ACCESS_DEFER_LIMIT: u64 = 300_000;

/// How long a queued revision waits, in milliseconds: as long as the last upload
/// took, within the bounds.
pub open spec fn debounce(measured: Option<u64>) -> u64 {
    match measured {
        None => DRAIN_REVISION_DEBOUNCE,
        Some(ms) => if ms < DRAIN_REVISION_DEBOUNCE {
            DRAIN_REVISION_DEBOUNCE
        } else if ms > DRAIN_REVISION_DEBOUNCE_MAX {
            DRAIN_REVISION_DEBOUNCE_MAX
        } else {
            ms
        },
    }
}

/// How long a queued revision waits, in milliseconds, given how long the last
/// upload of its node took.
pub fn adaptive_debounce(measured: Option<u64>) -> (r: u64)
    ensures
        r == debounce(measured),
        DRAIN_REVISION_DEBOUNCE <= r <= DRAIN_REVISION_DEBOUNCE_MAX,
{
    match measured {
        None => DRAIN_REVISION_DEBOUNCE,
        Some(ms) => if ms < DRAIN_REVISION_DEBOUNCE {
            DRAIN_REVISION_DEBOUNCE
        } else if ms > DRAIN_REVISION_DEBOUNCE_MAX {
            DRAIN_REVISION_DEBOUNCE_MAX
        } else {
            ms
        },
    }
}

/// What upload times are kept under: the written form of a uid. Two uids that are written
/// alike share one time.
pub open spec fn written_key(uid: Uid) -> Uid {
    Uid { volume: uid.text(), link: Seq::empty() }
}

fn key_of(uid: &NodeUid) -> (r: NodeUid)
    ensures
        r@ == written_key(uid@),
{
    let link: String = String::new();
    assert(link@ =~= Seq::<char>::empty());
    NodeUid::new(uid.to_text(), link)
}

/// How long a queued revision of `uid` waits, in milliseconds. `times` holds how
/// long uploads took and when that was noted.
pub fn revision_debounce(times: &UidMap<(u64, i64)>, uid: &NodeUid) -> (r: u64)
    ensures
        r == debounce(
            if times@.dom().contains(written_key(uid@)) {
                Some(times@[written_key(uid@)].0)
            } else {
                None
            },
        ),
{
    match times.get(&key_of(uid)) {
        Some(t) => adaptive_debounce(Some(t.0)),
        None => adaptive_debounce(None),
    }
}

/// Whether nothing in `times` was noted before what is there for `uid`.
pub open spec fn is_oldest(times: Map<Uid, (u64, i64)>, uid: Uid) -> bool {
    &&& times.dom().contains(uid)
    &&& forall|v: Uid| #[trigger] times.dom().contains(v) ==> times[uid].1 <= times[v].1
}

fn oldest_of(times: &UidMap<(u64, i64)>) -> (r: Option<NodeUid>)
    ensures
        match r {
            Some(uid) => is_oldest(times@, uid@),
            None => times@.dom().len() == 0,
        },
        r is None ==> times@ =~= Map::<Uid, (u64, i64)>::empty(),
{
    let n = times.walk();
    if n == 0 {
        proof {
            assert forall|u: Uid| !times@.dom().contains(u) by {
                assert(!times.keys().contains(u));
            }
            assert(times@.dom() =~= Set::<Uid>::empty());
        }
        return None;
    }
    let mut best: usize = 0;
    let mut i: usize = 1;
    while i < n
        invariant
            best < i <= n,
            n == times.keys().len(),
            forall|k: int|
                0 <= k < i ==> times@[times.keys()[best as int]].1
                    <= times@[#[trigger] times.keys()[k]].1,
        decreases n - i,
    {
        if times.pair_at(i).1.1 < times.pair_at(best).1.1 {
            best = i;
        }
        i = i + 1;
    }
    let uid = times.pair_at(best).0.clone();
    proof {
        assert forall|v: Uid| #[trigger] times@.dom().contains(v) implies times@[uid@].1
            <= times@[v].1 by {
            assert(times.keys().contains(v));
            let k = choose|k: int| 0 <= k < times.keys().len() && times.keys()[k] == v;
            assert(times@[times.keys()[best as int]].1 <= times@[times.keys()[k]].1);
        }
    }
    Some(uid)
}

/// Whether `after` is the memory `before` with an entry put into it. The memory is
/// bounded: when it is full, what was noted longest ago makes room.
pub open spec fn noted_in(
    before: Map<Uid, (u64, i64)>,
    uid: Uid,
    entry: (u64, i64),
    after: Map<Uid, (u64, i64)>,
) -> bool {
    if before.dom().contains(uid) || before.dom().len() < UPLOAD_TIME_MEMORY {
        after == before.insert(uid, entry)
    } else {
        exists|gone: Uid| #[trigger]
            is_oldest(before, gone) && after == before.remove(gone).insert(uid, entry)
    }
}

/// Note that an upload of `uid` took `took` milliseconds.
pub fn record_upload_time(times: &mut UidMap<(u64, i64)>, uid: &NodeUid, took: u64, now: i64)
    ensures
        noted_in(old(times)@, written_key(uid@), (took, now), final(times)@),
{
    let key = key_of(uid);
    if times.len() >= UPLOAD_TIME_MEMORY && !times.contains_key(&key) {
        if let Some(gone) = oldest_of(times) {
            times.remove(&gone);
            times.insert(key, (took, now));
            assert(is_oldest(old(times)@, gone@));
        }
        return ;
    }
    times.insert(key, (took, now));
}

/// The memory of upload times never holds more than its bound, and always what was
/// noted last.
pub proof fn law_upload_memory_is_bounded(
    before: Map<Uid, (u64, i64)>,
    uid: Uid,
    entry: (u64, i64),
    after: Map<Uid, (u64, i64)>,
)
    requires
        before.dom().finite(),
        before.dom().len() <= UPLOAD_TIME_MEMORY,
        noted_in(before, uid, entry, after),
    ensures
        after.dom().len() <= UPLOAD_TIME_MEMORY,
        after.dom().contains(uid) && after[uid] == entry,
{
    if before.dom().contains(uid) {
        assert(after.dom() =~= before.dom());
    } else if before.dom().len() < UPLOAD_TIME_MEMORY {
        assert(after.dom() =~= before.dom().insert(uid));
    } else {
        let gone = choose|gone: Uid| #[trigger]
            is_oldest(before, gone) && after == before.remove(gone).insert(uid, entry);
        assert(after.dom() =~= before.dom().remove(gone).insert(uid));
    }
}

/// The delay before the attempt that follows the given number of failures, in
/// milliseconds: the first failure costs the least, and each one more doubles what the
/// one before cost, up to the most.
pub open spec fn backoff_after(failures: nat) -> nat
    decreases failures,
{
    if failures <= 1 {
        DRAIN_BACKOFF_MIN as nat
    } else {
        let twice = 2 * backoff_after((failures - 1) as nat);
        if twice < DRAIN_BACKOFF_MAX {
            twice
        } else {
            DRAIN_BACKOFF_MAX as nat
        }
    }
}

/// The delay before the attempt that follows the given number of failures, in
/// milliseconds.
pub fn drain_backoff(failures: u32) -> (r: i64)
    ensures
        r == backoff_after(failures as nat),
        DRAIN_BACKOFF_MIN <= r <= DRAIN_BACKOFF_MAX,
{
    let mut delay: u64 = DRAIN_BACKOFF_MIN;
    let mut i: u32 = 1;
    while i < failures && delay < DRAIN_BACKOFF_MAX
        invariant
            1 <= i,
            i <= failures || i == 1,
            delay == backoff_after(i as nat),
            DRAIN_BACKOFF_MIN <= delay <= DRAIN_BACKOFF_MAX,
        decreases failures - i,
    {
        delay = if 2 * delay < DRAIN_BACKOFF_MAX {
            2 * delay
        } else {
            DRAIN_BACKOFF_MAX
        };
        i = i + 1;
    }
    proof {
        if i < failures {
            law_backoff_grows(i as nat, failures as nat);
        }
    }
    delay as i64
}

/// Each failure waits at least as long as the one before, and never less than the
/// least or more than the most.
pub proof fn law_backoff_grows(a: nat, b: nat)
    requires
        a <= b,
    ensures
        DRAIN_BACKOFF_MIN <= backoff_after(a) <= backoff_after(b) <= DRAIN_BACKOFF_MAX,
    decreases b,
{
    if b > 1 {
        law_backoff_grows(
            if a < b {
                a
            } else {
                (b - 1) as nat
            },
            (b - 1) as nat,
        );
    }
}

/// Each failure doubles what the one before cost, up to the most.
pub proof fn law_backoff_doubles(failures: nat)
    requires
        failures >= 1,
    ensures
        backoff_after(1) == DRAIN_BACKOFF_MIN,
        backoff_after(failures + 1) == (if 2 * backoff_after(failures) < DRAIN_BACKOFF_MAX {
            2 * backoff_after(failures)
        } else {
            DRAIN_BACKOFF_MAX as nat
        }),
{
}

/// Why a row went back on the clock without costing an attempt.
#[derive(Debug, Clone, Copy, PartialEq, Eq, Structural)]
pub enum AccessDeferral {
    /// A node that the tree knows may not be written.
    NotWritable,
    /// A node that the tree had lost was read back from the remote.
    AuthorityRefetched,
    /// A node that the tree had lost could not be asked about.
    RemoteUnreachable,
}

impl AccessDeferral {
    /// The reason in words, for the log.
    pub open spec fn log_words(self) -> Seq<char> {
        match self {
            AccessDeferral::NotWritable => "the node is not writable"@,
            AccessDeferral::AuthorityRefetched =>
                "the node was missing locally and has been re-read"@,
            AccessDeferral::RemoteUnreachable =>
                "the node is missing locally and the remote is unreachable"@,
        }
    }

    /// The reason in words, to be followed by for how long it has held.
    pub open spec fn failure_words(self) -> Seq<char> {
        match self {
            AccessDeferral::NotWritable => "the share has not been writable"@,
            AccessDeferral::AuthorityRefetched =>
                "the node has been missing from the local tree, and re-reading it from the remote has not restored it"@,
            AccessDeferral::RemoteUnreachable =>
                "the node has been missing from the local tree and the remote has been unreachable"@,
        }
    }

    /// The reason in words, for the log.
    pub fn log_reason(self) -> (r: &'static str)
        ensures
            r@ == self.log_words(),
    {
        match self {
            AccessDeferral::NotWritable => "the node is not writable",
            AccessDeferral::AuthorityRefetched =>
                "the node was missing locally and has been re-read",
            AccessDeferral::RemoteUnreachable =>
                "the node is missing locally and the remote is unreachable",
        }
    }

    /// The reason in words, to be followed by for how long it has held.
    pub fn failure_reason(self) -> (r: &'static str)
        ensures
            r@ == self.failure_words(),
    {
        match self {
            AccessDeferral::NotWritable => "the share has not been writable",
            AccessDeferral::AuthorityRefetched =>
                "the node has been missing from the local tree, and re-reading it from the remote has not restored it",
            AccessDeferral::RemoteUnreachable =>
                "the node has been missing from the local tree and the remote has been unreachable",
        }
    }
}

/// What the description of a queued rename says.
#[derive(Debug)]
pub enum RenameSource {
    /// The row has no description: its source was owned.
    Absent,
    Unreadable,
    /// The folder that the node was in before the first queued rename.
    Original(String),
}

/// What is wrong with a row.
#[derive(Debug, Clone, Copy, PartialEq, Eq, Structural)]
pub enum OpFault {
    Uid,
    NoParent,
    Parent,
    Description,
    OriginalParent,
    Kind,
}

/// What is wrong with a row, in words. `kind` is the row's kind as it is stored,
/// and `parse` what the reader of its description said.
pub open spec fn fault_words(fault: OpFault, kind: Seq<char>, parse: Seq<char>) -> Seq<char> {
    match fault {
        OpFault::Uid => "pending op has an unparseable uid"@,
        OpFault::NoParent => "pending op has no parent authority"@,
        OpFault::Parent => "pending op has an unparseable parent"@,
        OpFault::Description => parse,
        OpFault::OriginalParent => "rename op has an unparseable original parent"@,
        OpFault::Kind => "unknown pending op kind "@ + debug_quoted(kind),
    }
}

/// What is wrong with a row, in words.
pub fn fault_text(fault: OpFault, kind: &str, parse: &str) -> (r: String)
    ensures
        r@ == fault_words(fault, kind@, parse@),
{
    match fault {
        OpFault::Uid => "pending op has an unparseable uid".to_owned(),
        OpFault::NoParent => "pending op has no parent authority".to_owned(),
        OpFault::Parent => "pending op has an unparseable parent".to_owned(),
        OpFault::Description => parse.to_owned(),
        OpFault::OriginalParent => "rename op has an unparseable original parent".to_owned(),
        OpFault::Kind => concat2("unknown pending op kind ", quoted(kind).as_str()),
    }
}

/// The node that a row names as its own.
pub open spec fn op_node(op: PendingOp) -> Result<Uid, OpFault> {
    match uid_written(op.uid@) {
        Some(u) => Ok(u),
        None => Err(OpFault::Uid),
    }
}

/// The folder that a row names.
pub open spec fn op_parent(op: PendingOp) -> Result<Uid, OpFault> {
    match op.parent_uid {
        None => Err(OpFault::NoParent),
        Some(p) => match uid_written(p@) {
            Some(u) => Ok(u),
            None => Err(OpFault::Parent),
        },
    }
}

/// A list without what repeats the entry before it.
pub open spec fn deduped(s: Seq<Uid>) -> Seq<Uid>
    decreases s.len(),
{
    if s.len() <= 1 {
        s
    } else {
        let rest = deduped(s.drop_last());
        if rest.len() > 0 && rest.last() == s.last() {
            rest
        } else {
            rest.push(s.last())
        }
    }
}

/// The nodes that must be writable for a row to be performed.
pub open spec fn authorities(op: PendingOp, source: RenameSource) -> Result<Seq<Uid>, OpFault> {
    match op.kind {
        OpKind::Revision | OpKind::Trash => match op_node(op) {
            Ok(u) => Ok(seq![u]),
            Err(f) => Err(f),
        },
        OpKind::Create | OpKind::Mkdir => match op_parent(op) {
            Ok(u) => Ok(seq![u]),
            Err(f) => Err(f),
        },
        OpKind::Rename => match op_node(op) {
            Err(f) => Err(f),
            Ok(u) => match source {
                RenameSource::Unreadable => Err(OpFault::Description),
                RenameSource::Absent => match op_parent(op) {
                    Err(f) => Err(f),
                    Ok(p) => Ok(deduped(seq![u, p])),
                },
                RenameSource::Original(o) => match uid_written(o@) {
                    None => Err(OpFault::OriginalParent),
                    Some(o) => match op_parent(op) {
                        Err(f) => Err(f),
                        Ok(p) => Ok(deduped(seq![u, o, p])),
                    },
                },
            },
        },
        OpKind::Unknown => Err(OpFault::Kind),
    }
}

fn node_of(op: &PendingOp) -> (r: Result<NodeUid, OpFault>)
    ensures
        match r {
            Ok(u) => op_node(*op) == Ok::<Uid, OpFault>(u@),
            Err(f) => op_node(*op) == Err::<Uid, OpFault>(f),
        },
{
    match parse_node_uid(op.uid.as_str()) {
        Some(u) => Ok(u),
        None => Err(OpFault::Uid),
    }
}

fn parent_of(op: &PendingOp) -> (r: Result<NodeUid, OpFault>)
    ensures
        match r {
            Ok(u) => op_parent(*op) == Ok::<Uid, OpFault>(u@),
            Err(f) => op_parent(*op) == Err::<Uid, OpFault>(f),
        },
{
    match &op.parent_uid {
        None => Err(OpFault::NoParent),
        Some(p) => match parse_node_uid(p.as_str()) {
            Some(u) => Ok(u),
            None => Err(OpFault::Parent),
        },
    }
}

/// The identities in a list of nodes.
pub open spec fn uids_of(nodes: Seq<NodeUid>) -> Seq<Uid> {
    nodes.map_values(|n: NodeUid| n@)
}

fn push_distinct(list: &mut Vec<NodeUid>, uid: NodeUid)
    ensures
        uids_of(final(list)@) == (if old(list)@.len() > 0 && uids_of(old(list)@).last() == uid@ {
            uids_of(old(list)@)
        } else {
            uids_of(old(list)@).push(uid@)
        }),
{
    let n: usize = list.len();
    if n > 0 && same_uid(&list[n - 1], &uid) {
        return ;
    }
    list.push(uid);
    assert(uids_of(list@) =~= uids_of(old(list)@).push(uid@));
}

/// The nodes that must be writable for a row to be performed. A rename also asks
/// the folder that the node was in before it was first moved locally.
pub fn pending_op_authorities(op: &PendingOp, source: &RenameSource) -> (r: Result<
    Vec<NodeUid>,
    OpFault,
>)
    ensures
        match r {
            Ok(list) => authorities(*op, *source) == Ok::<Seq<Uid>, OpFault>(uids_of(list@)),
            Err(f) => authorities(*op, *source) == Err::<Seq<Uid>, OpFault>(f),
        },
{
    let mut list: Vec<NodeUid> = Vec::new();
    assert(uids_of(list@) =~= Seq::<Uid>::empty());
    match op.kind {
        OpKind::Revision | OpKind::Trash => {
            match node_of(op) {
                Err(f) => {
                    return Err(f);
                },
                Ok(u) => {
                    push_distinct(&mut list, u);
                    assert(uids_of(list@) =~= seq![u@]);
                },
            }
        },
        OpKind::Create | OpKind::Mkdir => {
            match parent_of(op) {
                Err(f) => {
                    return Err(f);
                },
                Ok(u) => {
                    push_distinct(&mut list, u);
                    assert(uids_of(list@) =~= seq![u@]);
                },
            }
        },
        OpKind::Rename => {
            let node = match node_of(op) {
                Err(f) => {
                    return Err(f);
                },
                Ok(u) => u,
            };
            let ghost u = node@;
            push_distinct(&mut list, node);
            assert(uids_of(list@) =~= seq![u]);
            let ghost mut all: Seq<Uid> = seq![u];
            proof {
                reveal_with_fuel(deduped, 4);
            }
            match source {
                RenameSource::Unreadable => {
                    return Err(OpFault::Description);
                },
                RenameSource::Absent => {},
                RenameSource::Original(o) => {
                    match parse_node_uid(o.as_str()) {
                        None => {
                            return Err(OpFault::OriginalParent);
                        },
                        Some(o) => {
                            proof {
                                all = seq![u, o@];
                                assert(all.drop_last() =~= seq![u]);
                            }
                            push_distinct(&mut list, o);
                        },
                    }
                },
            }
            assert(uids_of(list@) == deduped(all));
            match parent_of(op) {
                Err(f) => {
                    return Err(f);
                },
                Ok(p) => {
                    proof {
                        let before = all;
                        all = all.push(p@);
                        assert(all.drop_last() =~= before);
                        if before.len() == 1 {
                            assert(all =~= seq![u, p@]);
                        } else {
                            assert(all =~= seq![u, before[1], p@]);
                        }
                    }
                    push_distinct(&mut list, p);
                },
            }
        },
        OpKind::Unknown => {
            return Err(OpFault::Kind);
        },
    }
    Ok(list)
}

/// How an admitted row came out.
#[derive(Debug)]
pub enum DrainDisposition {
    Applied,
    /// A node that it needs may not be written.
    AccessDeferred,
    /// The tree cannot answer for this node.
    AuthorityUnknown(NodeUid),
}

/// Why a row failed.
#[derive(Debug)]
pub enum DrainFailure<E> {
    /// It cannot be understood.
    Op(OpFault),
    /// Performing it failed.
    Apply(E),
}

/// Whether `asked` are the first of `needed`, with an answer that `authority_of`
/// may give for each.
pub open spec fn answered<F: Fn(&NodeUid) -> WriteAuthority>(
    authority_of: F,
    needed: Seq<Uid>,
    asked: Seq<(NodeUid, WriteAuthority)>,
) -> bool {
    &&& asked.len() <= needed.len()
    &&& forall|i: int|
        0 <= i < asked.len() ==> (#[trigger] asked[i]).0@ == needed[i] && call_ensures(
            authority_of,
            (&asked[i].0,),
            asked[i].1,
        )
}

/// Whether each of the first `n` answers was that the node may be written.
pub open spec fn all_writable(asked: Seq<(NodeUid, WriteAuthority)>, n: int) -> bool {
    forall|i: int| 0 <= i < n ==> (#[trigger] asked[i]).1 is Writable
}

/// Whether `u` is the node to ask about next: those before it were asked, as `asked`
/// tells, and may be written.
pub open spec fn is_next<F: Fn(&NodeUid) -> WriteAuthority>(
    authority_of: F,
    needed: Seq<Uid>,
    asked: Seq<(NodeUid, WriteAuthority)>,
    u: Uid,
) -> bool {
    answered(authority_of, needed, asked) && all_writable(asked, asked.len() as int)
        && asked.len() < needed.len() && needed[asked.len() as int] == u
}

/// Whether every node that is needed was asked, as `asked` tells, and may be written.
pub open spec fn admitted<F: Fn(&NodeUid) -> WriteAuthority>(
    authority_of: F,
    needed: Seq<Uid>,
    asked: Seq<(NodeUid, WriteAuthority)>,
) -> bool {
    answered(authority_of, needed, asked) && asked.len() == needed.len() && all_writable(
        asked,
        asked.len() as int,
    )
}

/// Whether `r` is how a row comes out when the nodes were asked as `asked` tells.
pub open spec fn drained<
    E,
    F: Fn(&NodeUid) -> WriteAuthority,
    G: FnOnce() -> Result<(), E>,
>(
    authority_of: F,
    apply: G,
    needed: Seq<Uid>,
    asked: Seq<(NodeUid, WriteAuthority)>,
    r: Result<DrainDisposition, DrainFailure<E>>,
) -> bool {
    &&& answered(authority_of, needed, asked)
    &&& match r {
        Ok(DrainDisposition::Applied) => asked.len() == needed.len() && all_writable(
            asked,
            asked.len() as int,
        ) && exists|done: Result<(), E>| #[trigger] call_ensures(apply, (), done) && done is Ok,
        Ok(DrainDisposition::AccessDeferred) => asked.len() > 0 && all_writable(
            asked,
            asked.len() - 1,
        ) && asked.last().1 is Denied,
        Ok(DrainDisposition::AuthorityUnknown(u)) => asked.len() > 0 && all_writable(
            asked,
            asked.len() - 1,
        ) && asked.last().1 is Unknown && u@ == asked.last().0@,
        Err(DrainFailure::Apply(e)) => asked.len() == needed.len() && all_writable(
            asked,
            asked.len() as int,
        ) && call_ensures(apply, (), Err::<(), E>(e)),
        Err(DrainFailure::Op(_)) => false,
    }
}

/// Perform a row, if every node that it needs may be written. The nodes are asked
/// in order, and the first that may not be written, or that the tree does not
/// know, ends the attempt before anything is done: the row may be performed only once
/// each was found writable.
pub fn run_authorized_drain<
    E,
    F: Fn(&NodeUid) -> WriteAuthority,
    G: FnOnce() -> Result<(), E>,
>(op: &PendingOp, source: &RenameSource, authority_of: F, apply: G) -> (r: Result<
    DrainDisposition,
    DrainFailure<E>,
>)
    requires
        authorities(*op, *source) matches Ok(needed) ==> forall|
            asked: Seq<(NodeUid, WriteAuthority)>,
            u: &NodeUid,
        | #[trigger]
            is_next(authority_of, needed, asked, u@) ==> call_requires(authority_of, (u,)),
        authorities(*op, *source) matches Ok(needed) ==> forall|
            asked: Seq<(NodeUid, WriteAuthority)>,
        | #[trigger]
            admitted(authority_of, needed, asked) ==> call_requires(apply, ()),
    ensures
        authorities(*op, *source) is Err ==> (r matches Err(DrainFailure::Op(f)) && authorities(
            *op,
            *source,
        ) == Err::<Seq<Uid>, OpFault>(f)),
        authorities(*op, *source) is Ok ==> exists|asked: Seq<(NodeUid, WriteAuthority)>| #[trigger]
            drained(authority_of, apply, authorities(*op, *source)->Ok_0, asked, r),
{
    let needed = match pending_op_authorities(op, source) {
        Err(f) => {
            return Err(DrainFailure::Op(f));
        },
        Ok(list) => list,
    };
    let ghost want = authorities(*op, *source)->Ok_0;
    let ghost mut asked: Seq<(NodeUid, WriteAuthority)> = seq![];
    let mut i: usize = 0;
    while i < needed.len()
        invariant
            i <= needed@.len(),
            asked.len() == i,
            authorities(*op, *source) is Ok,
            want == authorities(*op, *source)->Ok_0,
            want == uids_of(needed@),
            answered(authority_of, want, asked),
            all_writable(asked, i as int),
            forall|before: Seq<(NodeUid, WriteAuthority)>, u: &NodeUid| #[trigger]
                is_next(authority_of, want, before, u@) ==> call_requires(authority_of, (u,)),
        decreases needed@.len() - i,
    {
        assert(is_next(authority_of, want, asked, needed@[i as int]@));
        let answer = authority_of(&needed[i]);
        proof {
            asked = asked.push((needed@[i as int], answer));
            assert(asked[i as int].0@ == want[i as int]);
            assert(answered(authority_of, want, asked));
        }
        match answer {
            WriteAuthority::Writable => {},
            WriteAuthority::Denied => {
                let r = Ok(DrainDisposition::AccessDeferred);
                assert(drained(authority_of, apply, want, asked, r));
                return r;
            },
            WriteAuthority::Unknown => {
                let r = Ok(DrainDisposition::AuthorityUnknown(needed[i].clone()));
                assert(drained(authority_of, apply, want, asked, r));
                return r;
            },
        }
        i = i + 1;
    }
    let ghost act = apply;
    assert(admitted(authority_of, want, asked));
    let done = apply();
    assert(call_ensures(act, (), done));
    let r = match done {
        Ok(_) => Ok(DrainDisposition::Applied),
        Err(e) => Err(DrainFailure::Apply(e)),
    };
    assert(drained(authority_of, act, want, asked, r));
    r
}

/// What a worker does next.
#[derive(Debug, Clone, Copy, PartialEq, Eq, Structural)]
pub enum DrainTurn {
    Stop,
    /// The queue could not be read: wait for work, and try again.
    Wait,
    /// Nothing can be done now: hand a claimed row back, do the chores of an idle
    /// queue, and wait until a row is due.
    Idle { release: bool, chores: bool },
    /// Perform the claimed row.
    Work,
}

/// What a worker does next. `claimed` is whether a due row was claimed. One worker
/// does the chores.
pub fn run_pending_drain(
    stopping: bool,
    claimed: Result<bool, ()>,
    online: bool,
    primary: bool,
) -> (r: DrainTurn)
    ensures
        r == (if stopping {
            DrainTurn::Stop
        } else if claimed is Err {
            DrainTurn::Wait
        } else if claimed->Ok_0 && online {
            DrainTurn::Work
        } else {
            DrainTurn::Idle { release: claimed->Ok_0, chores: primary }
        }),
{
    if stopping {
        return DrainTurn::Stop;
    }
    match claimed {
        Err(_) => DrainTurn::Wait,
        Ok(got) => if got && online {
            DrainTurn::Work
        } else {
            DrainTurn::Idle { release: got, chores: primary }
        },
    }
}

/// How performing a row came out.
#[derive(Debug, Clone, Copy, PartialEq, Eq, Structural)]
pub enum DrainOutcome {
    Applied,
    Deferred,
    Unknown,
    Failed,
}

/// What follows on performing a row. Whatever it is, the claim is handed back.
#[derive(Debug, Clone, Copy, PartialEq, Eq, Structural)]
pub enum AfterDrain {
    /// Forget that the row was ever blocked.
    ClearDeferral,
    /// Put it back on the clock.
    Defer,
    /// Ask the remote about the node that the tree does not know.
    AskRemote,
    /// Record the failure; the row stays, and is due again at `next_attempt_at`.
    Record { attempts: u32, next_attempt_at: i64 },
}

/// What follows on performing a row that had failed `attempts` times before.
pub fn after_drain(outcome: DrainOutcome, attempts: u32, now: i64) -> (r: AfterDrain)
    requires
        attempts < u32::MAX,
        now <= i64::MAX - DRAIN_BACKOFF_MAX,
    ensures
        r == (match outcome {
            DrainOutcome::Applied => AfterDrain::ClearDeferral,
            DrainOutcome::Deferred => AfterDrain::Defer,
            DrainOutcome::Unknown => AfterDrain::AskRemote,
            DrainOutcome::Failed => AfterDrain::Record {
                attempts: (attempts + 1) as u32,
                next_attempt_at: (now + backoff_after((attempts + 1) as nat)) as i64,
            },
        }),
        r is Record ==> r->next_attempt_at > now,
{
    match outcome {
        DrainOutcome::Applied => AfterDrain::ClearDeferral,
        DrainOutcome::Deferred => AfterDrain::Defer,
        DrainOutcome::Unknown => AfterDrain::AskRemote,
        DrainOutcome::Failed => AfterDrain::Record {
            attempts: attempts + 1,
            next_attempt_at: now + drain_backoff(attempts + 1),
        },
    }
}

/// For how long a row that was first blocked at `since` has been blocked.
pub open spec fn blocked_for(now: i64, since: i64) -> int {
    let d = now - since;
    if d < 0 {
        0
    } else if d > i64::MAX {
        i64::MAX as int
    } else {
        d
    }
}

/// When a blocked row is looked at again.
pub fn recheck_at(now: i64) -> (r: i64)
    requires
        now <= i64::MAX - DRAIN_ACCESS_RECHECK,
    ensures
        r == now + DRAIN_ACCESS_RECHECK,
{
    now + DRAIN_ACCESS_RECHECK
}

/// What follows on putting a blocked row back on the clock.
#[derive(Debug)]
pub enum Deferred {
    /// The clock could not be written: hand the claim back, and wait for work.
    Unwritten,
    /// Hand the claim back. The first time is worth a line in the log.
    Quiet { first: bool },
    /// It has been blocked for too long: record a failure, and hand the claim back.
    Report { first: bool, error: String, next_attempt_at: i64 },
}

/// What a report of a blocked row says.
pub open spec fn blocked_words(reason: AccessDeferral, secs: nat) -> Seq<char> {
    reason.failure_words() + " for "@ + decimal(secs) + "s. The staged bytes are kept."@
}

/// What follows on putting a blocked row back on the clock. `since` is when it
/// was first blocked.
pub fn defer_for_access(
    since: Result<i64, ()>,
    reason: AccessDeferral,
    attempts: u32,
    now: i64,
) -> (r: Deferred)
    requires
        attempts < u32::MAX,
        now <= i64::MAX - DRAIN_BACKOFF_MAX,
    ensures
        match r {
            Deferred::Unwritten => since is Err,
            Deferred::Quiet { first } => {
                &&& since is Ok
                &&& first == (since->Ok_0 == now)
                &&& blocked_for(now, since->Ok_0) < DRAIN_ACCESS_DEFER_LIMIT
            },
            Deferred::Report { first, error, next_attempt_at } => {
                &&& since is Ok
                &&& first == (since->Ok_0 == now)
                &&& blocked_for(now, since->Ok_0) >= DRAIN_ACCESS_DEFER_LIMIT
                &&& error@ == blocked_words(
                    reason,
                    (blocked_for(now, since->Ok_0) / 1000) as nat,
                )
                &&& next_attempt_at == now + backoff_after((attempts + 1) as nat)
            },
        },
{
    let start: i64 = match since {
        Err(_) => {
            return Deferred::Unwritten;
        },
        Ok(s) => s,
    };
    let gap: i128 = now as i128 - start as i128;
    let blocked: u64 = if gap < 0 {
        0
    } else if gap > i64::MAX as i128 {
        i64::MAX as u64
    } else {
        gap as u64
    };
    assert(blocked == blocked_for(now, start));
    if blocked >= DRAIN_ACCESS_DEFER_LIMIT {
        let error = concat4(
            reason.failure_reason(),
            " for ",
            decimal_text(blocked / 1000).as_str(),
            "s. The staged bytes are kept.",
        );
        Deferred::Report {
            first: start == now,
            error,
            next_attempt_at: now + drain_backoff(attempts + 1),
        }
    } else {
        Deferred::Quiet { first: start == now }
    }
}

/// What the remote said of a node that the tree does not know.
#[derive(Debug, Clone, Copy, PartialEq, Eq, Structural)]
pub enum RemoteAnswer {
    Found,
    Gone,
    Unreachable,
}

/// What follows on asking the remote about a node that the tree does not know.
#[derive(Debug)]
pub enum UnknownAuthority {
    /// Take the node into the tree, and put the row back on the clock.
    Reintern(AccessDeferral),
    /// Put the row back on the clock.
    Defer(AccessDeferral),
    /// Record a failure, and hand the claim back.
    Report { error: String, next_attempt_at: i64 },
}

/// What follows on asking the remote about a node that the tree does not know. A
/// node that is gone is reported at once; the row and its bytes stay.
pub fn resolve_unknown_authority(
    answer: RemoteAnswer,
    authority: &NodeUid,
    attempts: u32,
    now: i64,
) -> (r: UnknownAuthority)
    requires
        attempts < u32::MAX,
        now <= i64::MAX - DRAIN_BACKOFF_MAX,
    ensures
        match answer {
            RemoteAnswer::Found => r == UnknownAuthority::Reintern(
                AccessDeferral::AuthorityRefetched,
            ),
            RemoteAnswer::Unreachable => r == UnknownAuthority::Defer(
                AccessDeferral::RemoteUnreachable,
            ),
            RemoteAnswer::Gone => r matches UnknownAuthority::Report { error, next_attempt_at }
                && error@ == authority@.text()
                + " no longer exists remotely, so this operation has nothing to apply to. The staged bytes are kept."@
                && next_attempt_at == now + backoff_after((attempts + 1) as nat),
        },
{
    match answer {
        RemoteAnswer::Found => UnknownAuthority::Reintern(AccessDeferral::AuthorityRefetched),
        RemoteAnswer::Unreachable => UnknownAuthority::Defer(AccessDeferral::RemoteUnreachable),
        RemoteAnswer::Gone => UnknownAuthority::Report {
            error: concat2(
                authority.to_text().as_str(),
                " no longer exists remotely, so this operation has nothing to apply to. The staged bytes are kept.",
            ),
            next_attempt_at: now + drain_backoff(attempts + 1),
        },
    }
}

/// How long an idle worker sleeps, in milliseconds: until the next row is due, but
/// not longer than its poll.
pub fn drain_wait(earliest: Result<Option<i64>, ()>, now: i64) -> (r: u64)
    ensures
        r == (match earliest {
            Ok(Some(due)) => if due - now < 0 {
                0
            } else if due - now < DRAIN_IDLE_POLL {
                due - now
            } else {
                DRAIN_IDLE_POLL as int
            },
            _ => DRAIN_IDLE_POLL as int,
        }),
{
    match earliest {
        Ok(Some(due)) => {
            if due <= now {
                0
            } else {
                let left: i128 = due as i128 - now as i128;
                if left < DRAIN_IDLE_POLL as i128 {
                    left as u64
                } else {
                    DRAIN_IDLE_POLL
                }
            }
        },
        _ => DRAIN_IDLE_POLL,
    }
}

/// The running uploads after the one with the given number is over: a newer one of the
/// node stays.
pub open spec fn current_without(current: Map<Uid, u64>, uid: Uid, token: u64) -> Map<Uid, u64> {
    if current.dom().contains(uid) && current[uid] == token {
        current.remove(uid)
    } else {
        current
    }
}

/// An upload that ends does not take a newer one of its node off the list: that one can
/// still be told to stop.
pub proof fn law_newer_upload_stays_cancellable(
    current: Map<Uid, u64>,
    uid: Uid,
    over: u64,
    newer: u64,
)
    requires
        over != newer,
    ensures
        current_without(current.insert(uid, newer), uid, over) == current.insert(uid, newer),
{
}

/// The uploads that are on the wire, and which of them were told to stop. Each has
/// a number of its own; a node may have started a newer one.
pub struct Uploads {
    pub current: UidMap<u64>,
    pub stopped: std::collections::HashMap<u64, bool>,
    pub next: u64,
}

impl Uploads {
    /// Whether the numbers in use are all below the next one.
    pub open spec fn wf(self) -> bool {
        &&& forall|u: Uid| #[trigger]
            self.current@.dom().contains(u) ==> self.current@[u] < self.next
        &&& forall|t: u64| #[trigger] self.stopped@.dom().contains(t) ==> t < self.next
    }

    pub fn new() -> (r: Self)
        ensures
            r.wf(),
            r.current@ == Map::<Uid, u64>::empty(),
            r.stopped@ == Map::<u64, bool>::empty(),
    {
        broadcast use vstd::std_specs::hash::group_hash_axioms;

        Uploads { current: UidMap::new(), stopped: std::collections::HashMap::new(), next: 0 }
    }

    /// Note an upload of `uid` that is about to start.
    pub fn begin_cancellable_upload(&mut self, uid: &NodeUid) -> (token: u64)
        requires
            old(self).wf(),
            old(self).next < u64::MAX,
        ensures
            final(self).wf(),
            token == old(self).next,
            final(self).next == old(self).next + 1,
            final(self).current@ == old(self).current@.insert(uid@, token),
            final(self).stopped@ == old(self).stopped@.insert(token, false),
    {
        broadcast use vstd::std_specs::hash::group_hash_axioms;

        let token: u64 = self.next;
        self.next = token + 1;
        self.current.insert(uid.clone(), token);
        self.stopped.insert(token, false);
        token
    }

    /// Tell the running upload of `uid` to stop, if there is one.
    pub fn cancel_upload(&mut self, uid: &NodeUid)
        requires
            old(self).wf(),
        ensures
            final(self).wf(),
            final(self).next == old(self).next,
            final(self).current@ == old(self).current@,
            final(self).stopped@ == (if old(self).current@.dom().contains(uid@) {
                old(self).stopped@.insert(old(self).current@[uid@], true)
            } else {
                old(self).stopped@
            }),
    {
        broadcast use vstd::std_specs::hash::group_hash_axioms;

        let token: Option<u64> = match self.current.get(uid) {
            Some(t) => Some(*t),
            None => None,
        };
        if let Some(t) = token {
            self.stopped.insert(t, true);
        }
    }

    /// Whether the upload was told to stop.
    pub fn cancelled(&self, token: u64) -> (r: bool)
        ensures
            r == (self.stopped@.dom().contains(token) && self.stopped@[token]),
    {
        broadcast use vstd::std_specs::hash::group_hash_axioms;

        match self.stopped.get(&token) {
            Some(b) => *b,
            None => false,
        }
    }

    /// Forget an upload that is over. A newer upload of the node stays noted.
    pub fn finish(&mut self, uid: &NodeUid, token: u64)
        requires
            old(self).wf(),
        ensures
            final(self).wf(),
            final(self).next == old(self).next,
            final(self).current@ == current_without(old(self).current@, uid@, token),
            final(self).stopped@ == old(self).stopped@.remove(token),
    {
        broadcast use vstd::std_specs::hash::group_hash_axioms;

        let own: bool = match self.current.get(uid) {
            Some(t) => *t == token,
            None => false,
        };
        if own {
            self.current.remove(uid);
        }
        self.stopped.remove(&token);
    }
}

/// The wait after an edit follows how long the upload of the file takes, within its bounds:
/// never less for a slower one.
pub proof fn law_debounce_follows_the_upload(a: u64, b: u64)
    ensures
        a <= b ==> debounce(Some(a)) <= debounce(Some(b)),
        DRAIN_REVISION_DEBOUNCE <= a <= DRAIN_REVISION_DEBOUNCE_MAX ==> debounce(Some(a)) == a,
        DRAIN_REVISION_DEBOUNCE <= debounce(Some(a)) <= DRAIN_REVISION_DEBOUNCE_MAX,
        debounce(Some(a)) <= a || debounce(Some(a)) == DRAIN_REVISION_DEBOUNCE,
        debounce(Some(a)) >= a || debounce(Some(a)) == DRAIN_REVISION_DEBOUNCE_MAX,
        debounce(None) == DRAIN_REVISION_DEBOUNCE,
{
}

/// A time that is noted is there afterwards, and what was noted of other files stays, but
/// for one where there is no room: then nothing that is older stays.
pub proof fn law_noting_a_time_forgets_only_the_oldest(
    before: Map<Uid, (u64, i64)>,
    uid: Uid,
    entry: (u64, i64),
    after: Map<Uid, (u64, i64)>,
    other: Uid,
)
    requires
        noted_in(before, uid, entry, after),
        before.contains_key(other),
        other != uid,
    ensures
        after.contains_key(uid) && after[uid] == entry,
        after.contains_key(other) ==> after[other] == before[other],
        !after.contains_key(other) ==> !before.contains_key(uid) && before.dom().len()
            >= UPLOAD_TIME_MEMORY && forall|v: Uid| #[trigger]
            before.contains_key(v) ==> before[other].1 <= before[v].1,
{
    if !(before.dom().contains(uid) || before.dom().len() < UPLOAD_TIME_MEMORY) {
        let gone = choose|gone: Uid| #[trigger]
            is_oldest(before, gone) && after == before.remove(gone).insert(uid, entry);
        assert(is_oldest(before, gone));
        assert(forall|v: Uid| #[trigger] before.contains_key(v) ==> before.dom().contains(v));
    }
}

/// Times are kept by what is written of a node: two that are written alike share one.
pub proof fn law_times_are_kept_by_text(a: Uid, b: Uid)
    ensures
        written_key(a) == written_key(b) <==> a.text() == b.text(),
{
}

proof fn lemma_deduped(s: Seq<Uid>)
    ensures
        forall|x: Uid| #[trigger] deduped(s).contains(x) <==> s.contains(x),
        forall|i: int|
            0 <= i < deduped(s).len() - 1 ==> #[trigger] deduped(s)[i] != deduped(s)[i + 1],
        s.len() > 0 ==> deduped(s).len() > 0 && deduped(s).last() == s.last() && deduped(s)[0]
            == s[0],
    decreases s.len(),
{
    if s.len() > 1 {
        let t = s.drop_last();
        lemma_deduped(t);
        let rest = deduped(t);
        let d = deduped(s);
        assert(s =~= t.push(s.last()));
        assert forall|x: Uid| #[trigger] d.contains(x) <==> s.contains(x) by {
            if d.contains(x) {
                let i = choose|i: int| 0 <= i < d.len() && d[i] == x;
                if i < rest.len() {
                    assert(rest[i] == x);
                    assert(rest.contains(x));
                    let k = choose|k: int| 0 <= k < t.len() && t[k] == x;
                    assert(s[k] == x);
                } else {
                    assert(s[s.len() - 1] == x);
                }
            }
            if s.contains(x) {
                let k = choose|k: int| 0 <= k < s.len() && s[k] == x;
                if k < t.len() {
                    assert(t[k] == x);
                    assert(rest.contains(x));
                    let i = choose|i: int| 0 <= i < rest.len() && rest[i] == x;
                    assert(d[i] == x);
                } else {
                    assert(d[d.len() - 1] == x);
                }
            }
        }
    }
}

/// Whose permission a queued change needs: that of the node it changes, or of the folder it
/// makes something in; a rename needs that of the node, of the folder it goes to, and of the
/// folder it leaves where that is known. It needs no other, and none twice in a row.
pub proof fn law_changes_ask_whom_they_touch(op: PendingOp, source: RenameSource)
    ensures
        authorities(op, source) matches Ok(needed) ==> {
            &&& op.kind == OpKind::Revision || op.kind == OpKind::Trash ==> needed.len() == 1
                && uid_written(op.uid@) == Some(needed[0])
            &&& op.kind == OpKind::Create || op.kind == OpKind::Mkdir ==> needed.len() == 1
                && op.parent_uid is Some && uid_written((op.parent_uid->0)@) == Some(needed[0])
            &&& op.kind == OpKind::Rename ==> {
                &&& uid_written(op.uid@) is Some && needed.contains(uid_written(op.uid@)->0)
                &&& op.parent_uid is Some && uid_written((op.parent_uid->0)@) is Some
                    && needed.contains(uid_written((op.parent_uid->0)@)->0)
                &&& source matches RenameSource::Original(o) ==> uid_written(o@) is Some
                    && needed.contains(uid_written(o@)->0)
                &&& !(source is Unreadable)
                &&& forall|x: Uid| #[trigger]
                    needed.contains(x) ==> uid_written(op.uid@) == Some(x) || uid_written(
                        (op.parent_uid->0)@,
                    ) == Some(x) || (source is Original && uid_written((source->Original_0)@)
                        == Some(x))
            }
            &&& op.kind != OpKind::Unknown
            &&& forall|i: int|
                0 <= i < needed.len() - 1 ==> #[trigger] needed[i] != needed[i + 1]
        },
        authorities(op, source) is Err ==> {
            ||| op.kind == OpKind::Unknown
            ||| uid_written(op.uid@) is None
            ||| op.parent_uid is None
            ||| uid_written((op.parent_uid->0)@) is None
            ||| op.kind == OpKind::Rename && source is Unreadable
            ||| op.kind == OpKind::Rename && source is Original && uid_written(
                (source->Original_0)@,
            ) is None
        },
{
    if op.kind == OpKind::Rename && authorities(op, source) is Ok {
        let u = uid_written(op.uid@)->0;
        let p = uid_written((op.parent_uid->0)@)->0;
        match source {
            RenameSource::Absent => {
                let s = seq![u, p];
                lemma_deduped(s);
                assert(s[0] == u && s[1] == p);
                assert(s.contains(u) && s.contains(p));
            },
            RenameSource::Original(o) => {
                let s = seq![u, uid_written(o@)->0, p];
                lemma_deduped(s);
                assert(s[0] == u && s[1] == uid_written(o@)->0 && s[2] == p);
                assert(s.contains(u) && s.contains(p) && s.contains(uid_written(o@)->0));
            },
            RenameSource::Unreadable => {},
        }
    }
}

/// A change is applied only where each of those that it needs said that it may be written;
/// it is put off where one refused, and asks about the one that is not known.
pub proof fn law_changes_are_applied_only_where_all_agree<
    E,
    F: Fn(&NodeUid) -> WriteAuthority,
    G: FnOnce() -> Result<(), E>,
>(
    authority_of: F,
    apply: G,
    needed: Seq<Uid>,
    asked: Seq<(NodeUid, WriteAuthority)>,
    r: Result<DrainDisposition, DrainFailure<E>>,
)
    requires
        drained(authority_of, apply, needed, asked, r),
    ensures
        (r == Ok::<DrainDisposition, DrainFailure<E>>(DrainDisposition::Applied) || (r is Err))
            ==> forall|i: int|
            0 <= i < needed.len() ==> exists|u: NodeUid|
                u@ == #[trigger] needed[i] && #[trigger] call_ensures(
                    authority_of,
                    (&u,),
                    WriteAuthority::Writable,
                ),
        r == Ok::<DrainDisposition, DrainFailure<E>>(DrainDisposition::Applied) ==> exists|
            done: Result<(), E>,
        | #[trigger]
            call_ensures(apply, (), done) && done is Ok,
        (r is Ok && r->Ok_0 is AccessDeferred) ==> exists|u: NodeUid|
            needed.contains(u@) && #[trigger] call_ensures(
                authority_of,
                (&u,),
                WriteAuthority::Denied,
            ),
        (r is Ok && r->Ok_0 is AuthorityUnknown) ==> needed.contains(r->Ok_0->AuthorityUnknown_0@)
            && exists|u: NodeUid|
            u@ == r->Ok_0->AuthorityUnknown_0@ && #[trigger] call_ensures(
                authority_of,
                (&u,),
                WriteAuthority::Unknown,
            ),
{
    if r == Ok::<DrainDisposition, DrainFailure<E>>(DrainDisposition::Applied) || r is Err {
        assert forall|i: int| 0 <= i < needed.len() implies exists|u: NodeUid|
            u@ == #[trigger] needed[i] && #[trigger] call_ensures(
                authority_of,
                (&u,),
                WriteAuthority::Writable,
            ) by {
            assert(asked[i].1 is Writable);
            let u = asked[i].0;
            assert(call_ensures(authority_of, (&u,), WriteAuthority::Writable));
        }
    }
    if asked.len() > 0 {
        let last = asked.len() - 1;
        assert(asked[last].0@ == needed[last]);
        let u = asked[last].0;
        assert(call_ensures(authority_of, (&u,), asked[last].1));
        assert(needed.contains(u@));
    }
}

/// A change has been blocked for the time since it was first put off, and for none where the
/// clock went back.
pub proof fn law_blocked_time_is_since_the_first(now: i64, since: i64)
    ensures
        now <= since ==> blocked_for(now, since) == 0,
        0 <= now - since <= i64::MAX ==> blocked_for(now, since) == now - since,
        0 <= blocked_for(now, since) <= i64::MAX,
{
}

/// The reasons that a change is put off for are told apart.
pub proof fn law_reasons_are_told_apart(a: AccessDeferral, b: AccessDeferral)
    ensures
        a.log_words() == b.log_words() ==> a == b,
        a.failure_words() == b.failure_words() ==> a == b,
{
    reveal_strlit("the node is not writable");
    reveal_strlit("the node was missing locally and has been re-read");
    reveal_strlit("the node is missing locally and the remote is unreachable");
    reveal_strlit("the share has not been writable");
    reveal_strlit(
        "the node has been missing from the local tree, and re-reading it from the remote has not restored it",
    );
    reveal_strlit(
        "the node has been missing from the local tree and the remote has been unreachable",
    );
    assert("the node is not writable"@.len() == 24);
    assert("the node was missing locally and has been re-read"@.len() == 49);
    assert("the node is missing locally and the remote is unreachable"@.len() == 57);
    assert("the share has not been writable"@.len() == 31);
    assert("the node has been missing from the local tree and the remote has been unreachable"@.len()
        == 81);
}

/// What blocks a change is told first, and then for how long.
pub proof fn law_blocked_changes_say_why(reason: AccessDeferral, secs: nat)
    ensures
        reason.failure_words().is_prefix_of(blocked_words(reason, secs)),
        (reason.failure_words() + " for "@ + decimal(secs)).is_prefix_of(
            blocked_words(reason, secs),
        ),
{
}

} // verus!

//! The life of a mount: what starts it, what ends it, and in which order.

use crate::error::Errno;
use crate::node::Node;
use crate::text::{concat2, concat3, decimal, decimal_text};
use std::sync::atomic::{AtomicBool, Ordering};
use std::sync::Arc;
use vstd::prelude::*;

verus! {

/// Why a mount is over.
#[derive(Debug, Clone, Copy, PartialEq, Eq, Structural)]
pub enum MountOutcome {
    /// The daemon was asked to stop, and unmounted itself.
    Shutdown,
    /// The kernel mount ended on its own.
    Unmounted,
}

/// What the background sweep over conflict copies may do.
#[derive(Debug, Clone, Copy, PartialEq, Eq, Structural)]
pub enum SweepMode {
    Off,
    /// It may run, within the bounds that the configuration sets.
    On,
}

/// The settings of one mount.
#[derive(Debug)]
pub struct MountOptions {
    /// The account that the session belongs to.
    pub username: String,
    pub sweep_mode: SweepMode,
}

/// Whether a path is a mountpoint whose connection is dead: `stat` is what looking
/// at the path said.
pub fn is_stale_mount(stat: Result<(), Errno>) -> (r: bool)
    ensures
        r == (stat is Err && stat->Err_0 is Notconn),
{
    match stat {
        Err(Errno::Notconn) => true,
        _ => false,
    }
}

/// Why a mount was not registered.
#[derive(Debug, Clone, Copy, PartialEq, Eq, Structural)]
pub enum SecondaryInsertRejection {
    /// The daemon is not taking mounts.
    Closed,
    /// The folder has one.
    Duplicate,
}

/// The mounts besides the main one, by the folder they belong to, and whether new
/// ones are taken.
#[derive(Debug)]
pub struct SecondaryMountRegistry<T> {
    accepting: bool,
    entries: Vec<(i64, T)>,
}

/// The map that a list of pairs stands for.
pub open spec fn by_id<T>(pairs: Seq<(i64, T)>) -> Map<i64, T>
    decreases pairs.len(),
{
    if pairs.len() == 0 {
        Map::empty()
    } else {
        by_id(pairs.drop_last()).insert(pairs.last().0, pairs.last().1)
    }
}

/// Whether no id comes twice.
pub open spec fn ids_unique<T>(pairs: Seq<(i64, T)>) -> bool {
    forall|i: int, j: int|
        0 <= i < j < pairs.len() ==> (#[trigger] pairs[i]).0 != (#[trigger] pairs[j]).0
}

proof fn lemma_by_id<T>(pairs: Seq<(i64, T)>)
    requires
        ids_unique(pairs),
    ensures
        forall|id: i64| #[trigger]
            by_id(pairs).contains_key(id) <==> exists|i: int|
                0 <= i < pairs.len() && (#[trigger] pairs[i]).0 == id,
        forall|i: int|
            0 <= i < pairs.len() ==> by_id(pairs)[(#[trigger] pairs[i]).0] == pairs[i].1,
    decreases pairs.len(),
{
    if pairs.len() > 0 {
        let rest = pairs.drop_last();
        assert(ids_unique(rest)) by {
            assert forall|i: int, j: int| 0 <= i < j < rest.len() implies (#[trigger] rest[i]).0
                != (#[trigger] rest[j]).0 by {
                assert(pairs[i].0 != pairs[j].0);
            }
        }
        lemma_by_id(rest);
        assert forall|id: i64| #[trigger]
            by_id(pairs).contains_key(id) implies exists|i: int|
            0 <= i < pairs.len() && (#[trigger] pairs[i]).0 == id by {
            if id == pairs.last().0 {
                assert(pairs[pairs.len() - 1].0 == id);
            } else {
                assert(by_id(rest).contains_key(id));
                let i = choose|i: int| 0 <= i < rest.len() && (#[trigger] rest[i]).0 == id;
                assert(pairs[i].0 == id);
            }
        }
        assert forall|id: i64|
            (exists|i: int| 0 <= i < pairs.len() && (#[trigger] pairs[i]).0
                == id) implies #[trigger] by_id(pairs).contains_key(id) by {
            let i = choose|i: int| 0 <= i < pairs.len() && (#[trigger] pairs[i]).0 == id;
            if i < pairs.len() - 1 {
                assert(rest[i].0 == id);
                assert(by_id(rest).contains_key(id));
            }
        }
        assert forall|i: int| 0 <= i < pairs.len() implies by_id(pairs)[(#[trigger] pairs[i]).0]
            == pairs[i].1 by {
            if i < pairs.len() - 1 {
                assert(rest[i] == pairs[i]);
                assert(pairs[i].0 != pairs[pairs.len() - 1].0);
            }
        }
    }
}

/// Why a mount of the folder `id` is not registered, if it is not.
pub open spec fn insert_rejection<T>(accepts: bool, mounts: Map<i64, T>, id: i64) -> Option<
    SecondaryInsertRejection,
> {
    if !accepts {
        Some(SecondaryInsertRejection::Closed)
    } else if mounts.contains_key(id) {
        Some(SecondaryInsertRejection::Duplicate)
    } else {
        None
    }
}

/// The mounts after one was to be registered.
pub open spec fn mounts_with<T>(accepts: bool, mounts: Map<i64, T>, id: i64, mount: T) -> Map<
    i64,
    T,
> {
    if insert_rejection(accepts, mounts, id) is None {
        mounts.insert(id, mount)
    } else {
        mounts
    }
}

/// Once mounts are no longer taken none is added, and a mount is never replaced: what is
/// drained is all that there is to take down.
pub proof fn law_mounts_are_never_lost<T>(
    accepts: bool,
    mounts: Map<i64, T>,
    id: i64,
    mount: T,
    other: i64,
)
    ensures
        !accepts ==> mounts_with(accepts, mounts, id, mount) == mounts,
        mounts.contains_key(other) ==> mounts_with(accepts, mounts, id, mount).contains_key(other)
            && mounts_with(accepts, mounts, id, mount)[other] == mounts[other],
{
}

impl<T> SecondaryMountRegistry<T> {
    #[verifier::type_invariant]
    closed spec fn inv(&self) -> bool {
        ids_unique(self.entries@)
    }

    /// Whether new mounts are taken.
    pub closed spec fn accepts(&self) -> bool {
        self.accepting
    }

    /// The mounts, by folder.
    pub closed spec fn mounts(&self) -> Map<i64, T> {
        by_id(self.entries@)
    }
}

impl<T> Default for SecondaryMountRegistry<T> {
    fn default() -> (r: Self)
        ensures
            !r.accepts(),
            r.mounts() == Map::<i64, T>::empty(),
    {
        SecondaryMountRegistry { accepting: false, entries: Vec::new() }
    }
}

impl<T> SecondaryMountRegistry<T> {
    /// Take mounts from now on.
    pub fn open(&mut self)
        ensures
            final(self).accepts(),
            final(self).mounts() == old(self).mounts(),
    {
        proof {
            use_type_invariant(&*self);
        }
        self.accepting = true;
    }

    pub fn is_accepting(&self) -> (r: bool)
        ensures
            r == self.accepts(),
    {
        self.accepting
    }

    /// Take no more mounts.
    pub fn close(&mut self)
        ensures
            !final(self).accepts(),
            final(self).mounts() == old(self).mounts(),
    {
        proof {
            use_type_invariant(&*self);
        }
        self.accepting = false;
    }

    fn position(&self, id: i64) -> (r: Option<usize>)
        ensures
            match r {
                Some(i) => i < self.entries@.len() && self.entries@[i as int].0 == id
                    && self.mounts().contains_key(id) && self.mounts()[id]
                    == self.entries@[i as int].1,
                None => !self.mounts().contains_key(id),
            },
    {
        proof {
            use_type_invariant(self);
            lemma_by_id(self.entries@);
        }
        let mut i: usize = 0;
        while i < self.entries.len()
            invariant
                i <= self.entries@.len(),
                self.mounts() == by_id(self.entries@),
                forall|id: i64| #[trigger]
                    self.mounts().contains_key(id) <==> exists|i: int|
                        0 <= i < self.entries@.len() && (#[trigger] self.entries@[i]).0 == id,
                forall|i: int|
                    0 <= i < self.entries@.len() ==> self.mounts()[(#[trigger] self.entries@[i]).0]
                        == self.entries@[i].1,
                forall|k: int| 0 <= k < i ==> (#[trigger] self.entries@[k]).0 != id,
            decreases self.entries@.len() - i,
        {
            if self.entries[i].0 == id {
                assert(self.entries@[i as int].0 == id);
                return Some(i);
            }
            i = i + 1;
        }
        None
    }

    /// Register a mount. A registry that is closed, or that has one for the folder,
    /// hands it back.
    pub fn insert(&mut self, id: i64, mount: T) -> (r: Result<(), (SecondaryInsertRejection, T)>)
        ensures
            match insert_rejection(old(self).accepts(), old(self).mounts(), id) {
                None => r is Ok,
                Some(reason) => r == Err::<(), (SecondaryInsertRejection, T)>((reason, mount)),
            },
            final(self).mounts() == mounts_with(old(self).accepts(), old(self).mounts(), id, mount),
            final(self).accepts() == old(self).accepts(),
    {
        if !self.accepting {
            return Err((SecondaryInsertRejection::Closed, mount));
        }
        if self.position(id).is_some() {
            return Err((SecondaryInsertRejection::Duplicate, mount));
        }
        proof {
            use_type_invariant(&*self);
            lemma_by_id(self.entries@);
            let next = self.entries@.push((id, mount));
            assert forall|i: int, j: int| 0 <= i < j < next.len() implies (#[trigger] next[i]).0
                != (#[trigger] next[j]).0 by {
                assert(next[i] == self.entries@[i]);
                if j < self.entries@.len() {
                    assert(next[j] == self.entries@[j]);
                }
            }
            assert(next.drop_last() =~= self.entries@);
        }
        let mut entries: Vec<(i64, T)> = Vec::new();
        std::mem::swap(&mut entries, &mut self.entries);
        entries.push((id, mount));
        self.entries = entries;
        Ok(())
    }

    /// Take a mount out.
    pub fn remove(&mut self, id: &i64) -> (r: Option<T>)
        ensures
            final(self).mounts() == old(self).mounts().remove(*id),
            final(self).accepts() == old(self).accepts(),
            match r {
                Some(t) => old(self).mounts().contains_key(*id) && old(self).mounts()[*id] == t,
                None => !old(self).mounts().contains_key(*id),
            },
    {
        match self.position(*id) {
            None => {
                assert(self.mounts() =~= self.mounts().remove(*id));
                None
            },
            Some(i) => {
                let ghost before = self.entries@;
                proof {
                    use_type_invariant(&*self);
                    lemma_by_id(before);
                    let after = before.remove(i as int);
                    assert forall|a: int, b: int| 0 <= a < b < after.len() implies (
                    #[trigger] after[a]).0 != (#[trigger] after[b]).0 by {
                        let x = if a < i {
                            a
                        } else {
                            a + 1
                        };
                        let y = if b < i {
                            b
                        } else {
                            b + 1
                        };
                        assert(after[a] == before[x] && after[b] == before[y]);
                    }
                    lemma_by_id(after);
                    assert forall|k: i64| #[trigger]
                        by_id(after).contains_key(k) <==> by_id(before).remove(*id).contains_key(
                            k,
                        ) by {
                        if by_id(after).contains_key(k) {
                            let a = choose|a: int|
                                0 <= a < after.len() && (#[trigger] after[a]).0 == k;
                            let x = if a < i {
                                a
                            } else {
                                a + 1
                            };
                            assert(before[x] == after[a]);
                            if x < i {
                                assert(before[x].0 != before[i as int].0);
                            } else {
                                assert(before[i as int].0 != before[x].0);
                            }
                        }
                        if by_id(before).contains_key(k) && k != *id {
                            let x = choose|x: int|
                                0 <= x < before.len() && (#[trigger] before[x]).0 == k;
                            let a = if x < i {
                                x
                            } else {
                                x - 1
                            };
                            assert(after[a] == before[x]);
                        }
                    }
                    assert forall|k: i64| #[trigger] by_id(after).contains_key(k) implies by_id(
                        after,
                    )[k] == by_id(before)[k] by {
                        let a = choose|a: int|
                            0 <= a < after.len() && (#[trigger] after[a]).0 == k;
                        let x = if a < i {
                            a
                        } else {
                            a + 1
                        };
                        assert(after[a] == before[x]);
                    }
                    assert(by_id(after) =~= by_id(before).remove(*id));
                }
                let mut entries: Vec<(i64, T)> = Vec::new();
                std::mem::swap(&mut entries, &mut self.entries);
                let (_, t) = entries.remove(i);
                self.entries = entries;
                Some(t)
            },
        }
    }

    pub fn contains_key(&self, id: &i64) -> (r: bool)
        ensures
            r == self.mounts().contains_key(*id),
    {
        self.position(*id).is_some()
    }

    /// Take no more mounts, and hand out those that there are, each once.
    pub fn close_and_drain(&mut self) -> (r: Vec<(i64, T)>)
        ensures
            !final(self).accepts(),
            final(self).mounts() == Map::<i64, T>::empty(),
            ids_unique(r@),
            by_id(r@) == old(self).mounts(),
    {
        self.close();
        proof {
            use_type_invariant(&*self);
        }
        let mut out: Vec<(i64, T)> = Vec::new();
        std::mem::swap(&mut out, &mut self.entries);
        out
    }
}

/// Whether the flag was cleared: the store of `false` into it returned.
pub open spec fn unrouted(flag: &AtomicBool) -> bool {
    call_ensures(AtomicBool::store, (flag, false, Ordering::Release), ())
}

/// Make a session unroutable, then take it down. Taking it down may block, so it is not
/// begun before the flag was cleared.
pub fn teardown_session<T, F: FnOnce() -> T>(session_live: &AtomicBool, teardown: F) -> (r: T)
    requires
        unrouted(session_live) ==> call_requires(teardown, ()),
    ensures
        unrouted(session_live),
        call_ensures(teardown, (), r),
{
    session_live.store(false, Ordering::Release);
    teardown()
}

/// Unmount a session that may be in the middle of a transfer: its connection, where
/// it is known, is aborted first. Only then may it be unmounted.
pub fn umount_session_unblocked<S, R, A: FnOnce(u32), U: FnOnce(S) -> R>(
    session: S,
    conn: Option<u32>,
    abort: A,
    umount: U,
) -> (r: R)
    requires
        conn is None ==> call_requires(umount, (session,)),
        conn matches Some(id) ==> call_requires(abort, (id,)) && (call_ensures(abort, (id,), ())
            ==> call_requires(umount, (session,))),
    ensures
        conn matches Some(id) ==> call_ensures(abort, (id,), ()),
        call_ensures(umount, (session,), r),
{
    if let Some(id) = conn {
        abort(id);
    }
    umount(session)
}

/// A mount besides the main one: its session, its connection, and whether requests
/// are routed to it.
pub struct SecondaryMount<S> {
    pub session: S,
    pub conn: Option<u32>,
    pub session_live: Arc<AtomicBool>,
}

impl<S> SecondaryMount<S> {
    pub fn new(session: S, conn: Option<u32>, session_live: Arc<AtomicBool>) -> (r: Self)
        ensures
            r.session == session,
            r.conn == conn,
            r.session_live == session_live,
    {
        SecondaryMount { session, conn, session_live }
    }

    /// Make the mount unroutable, abort its connection where that is known, and
    /// unmount it.
    pub fn teardown<R, A: FnOnce(u32), U: FnOnce(S) -> R>(self, abort: A, umount: U) -> (r: R)
        requires
            unrouted(&*self.session_live) ==> match self.conn {
                None => call_requires(umount, (self.session,)),
                Some(id) => call_requires(abort, (id,)) && (call_ensures(abort, (id,), ())
                    ==> call_requires(umount, (self.session,))),
            },
        ensures
            unrouted(&*self.session_live),
            self.conn matches Some(id) ==> call_ensures(abort, (id,), ()),
            call_ensures(umount, (self.session,), r),
    {
        self.session_live.store(false, Ordering::Release);
        umount_session_unblocked(self.session, self.conn, abort, umount)
    }
}

/// The minor number of a device.
pub open spec fn minor_of(dev: u64) -> u64 {
    (dev & 0xff) | ((dev & 0x00000ffffff00000) >> 12)
}

/// Calls `libc::minor`: the low eight bits of a device number, followed upwards by
/// its bits from the twentieth to the forty-third.
#[verifier::external_body]
fn device_minor(dev: u64) -> (r: u32)
    ensures
        r as u64 == minor_of(dev),
{
    libc::minor(dev)
}

/// The kernel's number for the connection behind a mountpoint: the minor number of
/// its device, where the path could be looked at.
pub fn fuse_connection_id(dev: Option<u64>) -> (r: Option<u32>)
    ensures
        match dev {
            None => r is None,
            Some(d) => r is Some && r->0 as u64 == minor_of(d),
        },
{
    match dev {
        None => None,
        Some(d) => Some(device_minor(d)),
    }
}

/// The file that aborts a connection when it is written to.
pub fn abort_path(id: u32) -> (r: String)
    ensures
        r@ == "/sys/fs/fuse/connections/"@ + decimal(id as nat) + "/abort"@,
{
    concat3("/sys/fs/fuse/connections/", decimal_text(id as u64).as_str(), "/abort")
}

/// The root to mount, and whether the remote gave it. Where the remote cannot be
/// reached, the remembered root is mounted; without one there is nothing to show.
pub fn fetch_or_recall_root(fetched: Result<Node, String>, cached: Option<Node>) -> (r: Result<
    (Node, bool),
    String,
>)
    ensures
        match fetched {
            Ok(n) => r == Ok::<(Node, bool), String>((n, true)),
            Err(e) => match cached {
                Some(n) => r == Ok::<(Node, bool), String>((n, false)),
                None => r matches Err(m) && m@ == "fetch My Files root: "@ + e@,
            },
        },
{
    match fetched {
        Ok(n) => Ok((n, true)),
        Err(e) => match cached {
            Some(n) => Ok((n, false)),
            None => Err(concat2("fetch My Files root: ", e.as_str())),
        },
    }
}

/// A step of starting a mount.
#[derive(Debug, Clone, Copy, PartialEq, Eq, Structural)]
pub enum StartStep {
    /// Record the mount and its root.
    ProjectMount,
    /// Load what the account may do below each share.
    LoadAccess,
    /// Let background work reach the inode space.
    RegisterState,
    HydratePending,
    RecoverFsynced,
    ReconcileStaging,
    SpawnDrain,
    SpawnSync,
    SpawnSweep,
    SpawnProbe,
    SpawnIndex,
    BindSocket,
    RestrictSocket,
    SpawnSession,
    /// Take mounts of synced folders.
    OpenRegistry,
    SpawnControl,
    SpawnRestore,
    SpawnEventSync,
    SpawnShareRepair,
}

/// The steps of starting a mount, in order. The conflict sweep runs only where it
/// is not off; an offline mount watches for the network instead of repairing the
/// share.
pub open spec fn start_order(sweep: SweepMode, online: bool) -> Seq<StartStep> {
    seq![
        StartStep::ProjectMount,
        StartStep::LoadAccess,
        StartStep::RegisterState,
        StartStep::HydratePending,
        StartStep::RecoverFsynced,
        StartStep::ReconcileStaging,
        StartStep::SpawnDrain,
        StartStep::SpawnSync,
    ] + (if sweep is Off {
        seq![]
    } else {
        seq![StartStep::SpawnSweep]
    }) + (if online {
        seq![]
    } else {
        seq![StartStep::SpawnProbe]
    }) + seq![
        StartStep::SpawnIndex,
        StartStep::BindSocket,
        StartStep::RestrictSocket,
        StartStep::SpawnSession,
        StartStep::OpenRegistry,
        StartStep::SpawnControl,
        StartStep::SpawnRestore,
        StartStep::SpawnEventSync,
    ] + (if online {
        seq![StartStep::SpawnShareRepair]
    } else {
        seq![]
    })
}

/// The steps of starting a mount, in order.
pub fn mount(sweep: SweepMode, online: bool) -> (r: Vec<StartStep>)
    ensures
        r@ == start_order(sweep, online),
{
    let mut r: Vec<StartStep> = vec![
        StartStep::ProjectMount,
        StartStep::LoadAccess,
        StartStep::RegisterState,
        StartStep::HydratePending,
        StartStep::RecoverFsynced,
        StartStep::ReconcileStaging,
        StartStep::SpawnDrain,
        StartStep::SpawnSync,
    ];
    match sweep {
        SweepMode::Off => {},
        SweepMode::On => {
            r.push(StartStep::SpawnSweep);
        },
    }
    if !online {
        r.push(StartStep::SpawnProbe);
    }
    r.push(StartStep::SpawnIndex);
    r.push(StartStep::BindSocket);
    r.push(StartStep::RestrictSocket);
    r.push(StartStep::SpawnSession);
    r.push(StartStep::OpenRegistry);
    r.push(StartStep::SpawnControl);
    r.push(StartStep::SpawnRestore);
    r.push(StartStep::SpawnEventSync);
    if online {
        r.push(StartStep::SpawnShareRepair);
    }
    assert(r@ =~= start_order(sweep, online));
    r
}

/// What a step that failed means for the mount.
#[derive(Debug, Clone, Copy, PartialEq, Eq, Structural)]
pub enum StartFailure {
    /// Go on without it.
    Continue,
    /// Give up.
    Abort,
    /// Give up, and remove the control socket.
    AbortSocket,
    /// Give up: stop the workers, take down every mount, and remove the control
    /// socket.
    AbortMounted,
}

/// What a step that failed means for the mount.
pub open spec fn start_failure_of(step: StartStep) -> StartFailure {
    match step {
        StartStep::RestrictSocket => StartFailure::AbortSocket,
        StartStep::SpawnSession => StartFailure::AbortSocket,
        StartStep::SpawnControl => StartFailure::AbortMounted,
        StartStep::SpawnRestore => StartFailure::Continue,
        StartStep::SpawnShareRepair => StartFailure::Continue,
        StartStep::HydratePending => StartFailure::Continue,
        StartStep::RecoverFsynced => StartFailure::Continue,
        StartStep::ReconcileStaging => StartFailure::Continue,
        _ => StartFailure::Abort,
    }
}

/// What a step that failed means for the mount.
pub fn start_failure(step: StartStep) -> (r: StartFailure)
    ensures
        r == start_failure_of(step),
{
    match step {
        StartStep::RestrictSocket => StartFailure::AbortSocket,
        StartStep::SpawnSession => StartFailure::AbortSocket,
        StartStep::SpawnControl => StartFailure::AbortMounted,
        StartStep::SpawnRestore => StartFailure::Continue,
        StartStep::SpawnShareRepair => StartFailure::Continue,
        StartStep::HydratePending => StartFailure::Continue,
        StartStep::RecoverFsynced => StartFailure::Continue,
        StartStep::ReconcileStaging => StartFailure::Continue,
        _ => StartFailure::Abort,
    }
}

/// The words for a step that ended the start.
pub fn start_error(step: StartStep, error: &str) -> (r: String)
    ensures
        r@ == (match step {
            StartStep::ProjectMount => "project My Files mount: "@ + error@,
            StartStep::LoadAccess => "load shared access: "@ + error@,
            StartStep::RestrictSocket => "control socket permissions: "@ + error@,
            _ => error@,
        }),
{
    match step {
        StartStep::ProjectMount => concat2("project My Files mount: ", error),
        StartStep::LoadAccess => concat2("load shared access: ", error),
        StartStep::RestrictSocket => concat2("control socket permissions: ", error),
        _ => error.to_owned(),
    }
}

/// Whether `a` comes before `b` wherever both come.
pub open spec fn precedes<T>(order: Seq<T>, a: T, b: T) -> bool {
    forall|i: int, j: int|
        0 <= i < order.len() && 0 <= j < order.len() && #[trigger] order[i] == a
            && #[trigger] order[j] == b ==> i < j
}

/// Queued writes are back before anything can drain them or serve a read, and no
/// request is taken before the socket is the owner's alone and the mount is up.
pub proof fn law_start_order(sweep: SweepMode, online: bool)
    ensures
        precedes(start_order(sweep, online), StartStep::HydratePending, StartStep::RecoverFsynced),
        precedes(
            start_order(sweep, online),
            StartStep::RecoverFsynced,
            StartStep::ReconcileStaging,
        ),
        precedes(start_order(sweep, online), StartStep::ReconcileStaging, StartStep::SpawnDrain),
        precedes(start_order(sweep, online), StartStep::HydratePending, StartStep::SpawnSession),
        precedes(start_order(sweep, online), StartStep::RestrictSocket, StartStep::SpawnControl),
        precedes(start_order(sweep, online), StartStep::SpawnSession, StartStep::SpawnControl),
        precedes(start_order(sweep, online), StartStep::OpenRegistry, StartStep::SpawnRestore),
        start_order(sweep, online).contains(StartStep::SpawnSweep) <==> !(sweep is Off),
{
    let o = start_order(sweep, online);
    if !(sweep is Off) {
        assert(o[8] == StartStep::SpawnSweep);
    }
}

/// What the wait for the end of a mount heard.
#[derive(Debug, Clone, Copy, PartialEq, Eq, Structural)]
pub enum MountEvent {
    /// A stop signal.
    Stop,
    /// Nothing, for a while.
    Timeout,
    /// The signals can no longer be heard.
    Deaf,
}

/// How a mount that is over comes down.
#[derive(Debug, Clone, Copy, PartialEq, Eq, Structural)]
pub enum WayDown {
    /// Unmount it.
    Unmount,
    /// Wait for its session to end.
    Join,
}

/// Whether the mount is over, why, and how it comes down. `finished` is whether the
/// session has ended.
pub fn mount_over(event: MountEvent, finished: bool) -> (r: Option<(MountOutcome, WayDown)>)
    ensures
        r == (match event {
            MountEvent::Stop => Some((MountOutcome::Shutdown, WayDown::Unmount)),
            MountEvent::Timeout => if finished {
                Some((MountOutcome::Unmounted, WayDown::Join))
            } else {
                None::<(MountOutcome, WayDown)>
            },
            MountEvent::Deaf => Some((MountOutcome::Unmounted, WayDown::Join)),
        }),
{
    match event {
        MountEvent::Stop => Some((MountOutcome::Shutdown, WayDown::Unmount)),
        MountEvent::Timeout => if finished {
            Some((MountOutcome::Unmounted, WayDown::Join))
        } else {
            None
        },
        MountEvent::Deaf => Some((MountOutcome::Unmounted, WayDown::Join)),
    }
}

/// A step of ending a mount.
#[derive(Debug, Clone, Copy, PartialEq, Eq, Structural)]
pub enum StopStep {
    /// Take no more mounts of synced folders.
    CloseRegistry,
    TearDownPrimary,
    /// Wait for the mounts of a previous run to be restored or refused.
    JoinRestore,
    /// Take down the mounts of synced folders.
    DrainSecondaries,
    /// Tell the workers to stop.
    SignalStop,
    WakeDrain,
    StopSync,
    /// Connect to the control socket, so that its listener looks up.
    PokeSocket,
    RemoveSocket,
    JoinWorkers,
}

/// The steps of stopping the workers, in order.
pub open spec fn worker_stop_order() -> Seq<StopStep> {
    seq![
        StopStep::SignalStop,
        StopStep::WakeDrain,
        StopStep::StopSync,
        StopStep::PokeSocket,
        StopStep::RemoveSocket,
        StopStep::JoinWorkers,
    ]
}

/// The steps of stopping the workers, in order.
pub fn stop_workers() -> (r: Vec<StopStep>)
    ensures
        r@ == worker_stop_order(),
{
    let r: Vec<StopStep> = vec![
        StopStep::SignalStop,
        StopStep::WakeDrain,
        StopStep::StopSync,
        StopStep::PokeSocket,
        StopStep::RemoveSocket,
        StopStep::JoinWorkers,
    ];
    assert(r@ =~= worker_stop_order());
    r
}

/// The steps of ending a mount, in order.
pub open spec fn stop_order() -> Seq<StopStep> {
    seq![
        StopStep::CloseRegistry,
        StopStep::TearDownPrimary,
        StopStep::JoinRestore,
        StopStep::DrainSecondaries,
    ] + worker_stop_order()
}

/// The steps of ending a mount, in order.
pub fn end_mount() -> (r: Vec<StopStep>)
    ensures
        r@ == stop_order(),
{
    let r: Vec<StopStep> = vec![
        StopStep::CloseRegistry,
        StopStep::TearDownPrimary,
        StopStep::JoinRestore,
        StopStep::DrainSecondaries,
        StopStep::SignalStop,
        StopStep::WakeDrain,
        StopStep::StopSync,
        StopStep::PokeSocket,
        StopStep::RemoveSocket,
        StopStep::JoinWorkers,
    ];
    assert(r@ =~= stop_order());
    r
}

/// Mounts are refused before the main one goes, the rest are taken down only when
/// no restoring can add to them, and the flag is up before anybody is woken.
pub proof fn law_stop_order()
    ensures
        precedes(stop_order(), StopStep::CloseRegistry, StopStep::TearDownPrimary),
        precedes(stop_order(), StopStep::CloseRegistry, StopStep::JoinRestore),
        precedes(stop_order(), StopStep::JoinRestore, StopStep::DrainSecondaries),
        precedes(stop_order(), StopStep::SignalStop, StopStep::WakeDrain),
        precedes(stop_order(), StopStep::SignalStop, StopStep::PokeSocket),
        precedes(stop_order(), StopStep::PokeSocket, StopStep::RemoveSocket),
        precedes(stop_order(), StopStep::RemoveSocket, StopStep::JoinWorkers),
{
}

/// What became of resolving the share of the main root.
#[derive(Debug, Clone, Copy, PartialEq, Eq, Structural)]
pub enum ShareRepair {
    Unresolved,
    Repaired,
    /// The root changed meanwhile.
    Stale,
    Unwritten,
}

/// What became of resolving the share of the main root: `written` is whether the
/// row still had that root.
pub fn repair_primary_share_id(resolved: bool, written: Result<bool, ()>) -> (r: ShareRepair)
    ensures
        r == (if !resolved {
            ShareRepair::Unresolved
        } else {
            match written {
                Ok(true) => ShareRepair::Repaired,
                Ok(false) => ShareRepair::Stale,
                Err(_) => ShareRepair::Unwritten,
            }
        }),
{
    if !resolved {
        return ShareRepair::Unresolved;
    }
    match written {
        Ok(true) => ShareRepair::Repaired,
        Ok(false) => ShareRepair::Stale,
        Err(_) => ShareRepair::Unwritten,
    }
}

/// A mount is found by its id just where one was taken in under it, and is that one.
pub proof fn law_mounts_are_found_by_id<T>(pairs: Seq<(i64, T)>, i: int, id: i64)
    requires
        ids_unique(pairs),
    ensures
        0 <= i < pairs.len() ==> by_id(pairs).contains_key(pairs[i].0) && by_id(pairs)[pairs[i].0]
            == pairs[i].1,
        by_id(pairs).contains_key(id) ==> exists|j: int|
            0 <= j < pairs.len() && (#[trigger] pairs[j]).0 == id,
    decreases pairs.len(),
{
    if pairs.len() > 0 {
        let rest = pairs.drop_last();
        assert forall|a: int, b: int| 0 <= a < b < rest.len() implies (#[trigger] rest[a]).0 != (
        #[trigger] rest[b]).0 by {
            assert(rest[a] == pairs[a] && rest[b] == pairs[b]);
        }
        law_mounts_are_found_by_id(rest, i, id);
        let last = pairs.len() - 1;
        assert(pairs[last] == pairs.last());
        if 0 <= i < last {
            assert(rest[i] == pairs[i]);
            assert(pairs[i].0 != pairs[last].0);
        }
        if by_id(rest).contains_key(id) {
            let j = choose|j: int| 0 <= j < rest.len() && (#[trigger] rest[j]).0 == id;
            assert(pairs[j].0 == id);
        }
    }
}

/// A mount is turned away just where the registry is closed or has that id, and is taken in
/// else; the others stay.
pub proof fn law_mounts_are_taken_in<T>(
    accepts: bool,
    mounts: Map<i64, T>,
    id: i64,
    mount: T,
    other: i64,
)
    ensures
        insert_rejection(accepts, mounts, id) is None <==> accepts && !mounts.contains_key(id),
        insert_rejection(accepts, mounts, id) == Some(SecondaryInsertRejection::Closed)
            <==> !accepts,
        accepts && !mounts.contains_key(id) ==> mounts_with(accepts, mounts, id, mount).contains_key(
            id,
        ) && mounts_with(accepts, mounts, id, mount)[id] == mount,
        mounts.contains_key(other) ==> mounts_with(accepts, mounts, id, mount).contains_key(other)
            && mounts_with(accepts, mounts, id, mount)[other] == mounts[other],
        !mounts.contains_key(other) && other != id ==> !mounts_with(
            accepts,
            mounts,
            id,
            mount,
        ).contains_key(other),
{
}

/// The minor number is read back from a device number that was put together from it.
pub proof fn law_minor_is_read_back(major: u64, minor: u64)
    requires
        major <= 0xffff_ffff,
        minor <= 0xffff_ffff,
    ensures
        minor_of(
            (minor & 0xff) | ((major & 0xfff) << 8) | ((minor & 0xffffff00) << 12) | ((major
                & 0xfffff000) << 32),
        ) == minor,
{
    assert(({
        let dev = (minor & 0xff) | ((major & 0xfff) << 8) | ((minor & 0xffffff00) << 12) | ((major
            & 0xfffff000) << 32);
        (dev & 0xff) | ((dev & 0x00000ffffff00000) >> 12)
    }) == minor) by (bit_vector)
        requires
            major <= 0xffff_ffff,
            minor <= 0xffff_ffff,
    ;
}

/// A start takes each of its steps once: the sweep just where it is wanted, the probe just
/// where the remote is away, and the repair of the share just where it is there.
pub proof fn law_start_takes_every_step(sweep: SweepMode, online: bool, step: StartStep)
    ensures
        start_order(sweep, online).no_duplicates(),
        start_order(sweep, online).contains(step) <==> {
            &&& step is SpawnSweep ==> sweep is On
            &&& step is SpawnProbe ==> !online
            &&& step is SpawnShareRepair ==> online
        },
{
    let order = start_order(sweep, online);
    let a: int = if sweep is Off {
        0
    } else {
        1
    };
    let b: int = a + (if online {
        0int
    } else {
        1
    });
    assert(order[0] == StartStep::ProjectMount);
    assert(order[1] == StartStep::LoadAccess);
    assert(order[2] == StartStep::RegisterState);
    assert(order[3] == StartStep::HydratePending);
    assert(order[4] == StartStep::RecoverFsynced);
    assert(order[5] == StartStep::ReconcileStaging);
    assert(order[6] == StartStep::SpawnDrain);
    assert(order[7] == StartStep::SpawnSync);
    assert(sweep is On ==> order[8] == StartStep::SpawnSweep);
    assert(!online ==> order[8 + a] == StartStep::SpawnProbe);
    assert(order[8 + b] == StartStep::SpawnIndex);
    assert(order[9 + b] == StartStep::BindSocket);
    assert(order[10 + b] == StartStep::RestrictSocket);
    assert(order[11 + b] == StartStep::SpawnSession);
    assert(order[12 + b] == StartStep::OpenRegistry);
    assert(order[13 + b] == StartStep::SpawnControl);
    assert(order[14 + b] == StartStep::SpawnRestore);
    assert(order[15 + b] == StartStep::SpawnEventSync);
    assert(online ==> order[16 + b] == StartStep::SpawnShareRepair);
}

/// Nothing that an earlier run left behind keeps a mount from starting, nor what only helps
/// it along. What fails once the socket is there takes the socket away, and what fails once
/// the mount is up takes the mount down.
pub proof fn law_failed_starts_clean_up(step: StartStep)
    ensures
        step is HydratePending || step is RecoverFsynced || step is ReconcileStaging || step
            is SpawnRestore || step is SpawnShareRepair <==> start_failure_of(step) is Continue,
        step is RestrictSocket || step is SpawnSession <==> start_failure_of(step) is AbortSocket,
        step is SpawnControl <==> start_failure_of(step) is AbortMounted,
{
}

/// A stop takes each of its steps once.
pub proof fn law_stop_takes_every_step(step: StopStep)
    ensures
        stop_order().no_duplicates(),
        stop_order().contains(step),
        worker_stop_order().contains(step) <==> !(step is CloseRegistry || step is TearDownPrimary
            || step is JoinRestore || step is DrainSecondaries),
{
    let order = stop_order();
    let tail = worker_stop_order();
    assert(order[0] == StopStep::CloseRegistry);
    assert(order[1] == StopStep::TearDownPrimary);
    assert(order[2] == StopStep::JoinRestore);
    assert(order[3] == StopStep::DrainSecondaries);
    assert(order[4] == StopStep::SignalStop && tail[0] == StopStep::SignalStop);
    assert(order[5] == StopStep::WakeDrain && tail[1] == StopStep::WakeDrain);
    assert(order[6] == StopStep::StopSync && tail[2] == StopStep::StopSync);
    assert(order[7] == StopStep::PokeSocket && tail[3] == StopStep::PokeSocket);
    assert(order[8] == StopStep::RemoveSocket && tail[4] == StopStep::RemoveSocket);
    assert(order[9] == StopStep::JoinWorkers && tail[5] == StopStep::JoinWorkers);
}

/// A session that requests are kept from has had its flag taken down.
pub proof fn law_unrouted_sessions_are_flagged_down(flag: &AtomicBool)
    requires
        unrouted(flag),
    ensures
        call_ensures(AtomicBool::store, (flag, false, Ordering::Release), ()),
{
}

} // verus!

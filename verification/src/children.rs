//! Bringing a folder's listing into memory.
//!
//! The steps wait for the database and the remote in turn, so they are a machine.
//! A listing is published only as a whole, and never over one that was published
//! meanwhile or from before an event that withdrew it.

use crate::error::Errno;
use crate::events::refresh_generation_is_current;
use crate::listing::ChildrenPlan;
use vstd::prelude::*;

verus! {

/// How long a listing of what others share stays good, in milliseconds.
pub const SHARED_LISTING_TTL: i64 = 60_000;

/// Whether something stamped at `stamp` is `ttl` milliseconds old at `now`; without
/// a stamp it always is.
pub open spec fn is_stale(stamp: Option<i64>, now: i64, ttl: i64) -> bool {
    match stamp {
        None => true,
        Some(ms) => if now - ms > i64::MAX {
            true
        } else if now - ms < i64::MIN {
            i64::MIN >= ttl
        } else {
            now - ms >= ttl
        },
    }
}

/// Whether a persisted listing is due for a refresh.
pub fn listing_stale(stamp: Option<i64>, now: i64, ttl: i64) -> (r: bool)
    ensures
        r == is_stale(stamp, now, ttl),
{
    match stamp {
        None => true,
        Some(ms) => {
            let age: i128 = now as i128 - ms as i128;
            let age: i128 = if age > i64::MAX as i128 {
                i64::MAX as i128
            } else if age < i64::MIN as i128 {
                i64::MIN as i128
            } else {
                age
            };
            age >= ttl as i128
        },
    }
}

/// Whether a listing of what others share is due for a refresh. A deadline that is
/// remembered in memory wins over the persisted stamp.
pub fn shared_listing_stale(fresh: bool, stamp: Option<i64>, now: i64) -> (r: bool)
    ensures
        r == (!fresh && is_stale(stamp, now, SHARED_LISTING_TTL)),
{
    !fresh && listing_stale(stamp, now, SHARED_LISTING_TTL)
}

/// Where the listing of what others share comes from.
#[derive(Debug, Clone, Copy, PartialEq, Eq, Structural)]
pub enum SharedListingPlan {
    Resident,
    Persisted,
    Refresh,
}

/// Where the listing of what others share comes from: the remote where that can be
/// asked and is due, and else memory before disk.
pub fn shared_listing_plan(resident: bool, online: bool, stale: bool) -> (r: SharedListingPlan)
    ensures
        r == (if online && stale {
            SharedListingPlan::Refresh
        } else if resident {
            SharedListingPlan::Resident
        } else {
            SharedListingPlan::Persisted
        }),
{
    if online && stale {
        SharedListingPlan::Refresh
    } else if resident {
        SharedListingPlan::Resident
    } else {
        SharedListingPlan::Persisted
    }
}

/// Where the machine of a listing is.
#[derive(Debug, Clone, Copy, PartialEq, Eq, Structural)]
pub enum ChildStage {
    /// The persisted listing was asked for.
    AwaitRows { primary_root: bool, foreign: bool },
    /// The remote was asked for the nodes. `asked_at` is the generation at
    /// the time, where a foreign folder is refreshed.
    AwaitRemote { primary_root: bool, foreign: bool, asked_at: Option<u64> },
    /// The rows of a foreign folder are being replaced.
    AwaitForeignRows,
    /// The rows of a foreign folder were asked for again.
    AwaitForeignSnapshot,
    /// The listing was handed to the tree.
    AwaitPublication { primary_root: bool, foreign: bool, fetched: bool },
    /// The synthetic folder was reconciled. `sizes` is whether sizes may be missing.
    AwaitVirtual { sizes: bool },
    Over,
}

/// What the machine of a listing is told.
#[derive(Debug, Clone, Copy, PartialEq, Eq, Structural)]
pub enum ChildEvent {
    /// Whether the folder's rows are complete. A failure to read them is no.
    Rows(bool),
    /// Whether the nodes came, and the generation by then.
    Remote { ok: bool, generation: u64 },
    /// Whether a step on the foreign rows worked.
    Stored(bool),
    /// Whether the tree took the listing, or had one by then.
    Published(bool),
    /// What reconciling the synthetic folder said.
    Virtual(Option<Errno>),
}

/// What is to be done for a listing.
#[derive(Debug, Clone, Copy, PartialEq, Eq, Structural)]
pub enum ChildAction {
    ReadRows,
    AskRemote,
    /// Publish what was read; the synthetic folder is left out of its parent's rows.
    Publish { without_virtual: bool },
    /// Replace the rows of a foreign folder.
    StoreForeign,
    LoadForeign,
    PublishForeign,
    /// Record the listing as complete if `listed`, then reconcile the synthetic folder
    /// with it.
    ReconcileVirtual { listed: bool },
    /// Go on with the listing of what others share.
    SharedRoot,
    /// The listing is there. `listed` records it as complete, `fresh` stamps a
    /// foreign one, and `sizes` fetches the sizes that are missing.
    Done { listed: bool, fresh: bool, sizes: bool },
    Fail(Errno),
}

/// How a listing begins.
pub open spec fn child_start(plan: ChildrenPlan, generation: u64) -> (ChildStage, ChildAction) {
    match plan {
        ChildrenPlan::Missing => (ChildStage::Over, ChildAction::Fail(Errno::Noent)),
        ChildrenPlan::SharedRoot => (ChildStage::Over, ChildAction::SharedRoot),
        ChildrenPlan::Resident { reconcile } => if reconcile {
            (
                ChildStage::AwaitVirtual { sizes: false },
                ChildAction::ReconcileVirtual { listed: false },
            )
        } else {
            (
                ChildStage::Over,
                ChildAction::Done { listed: false, fresh: false, sizes: false },
            )
        },
        ChildrenPlan::Load { primary_root, foreign, .. } => (
            ChildStage::AwaitRows { primary_root, foreign },
            ChildAction::ReadRows,
        ),
        ChildrenPlan::Enumerate { primary_root, foreign, .. } => (
            ChildStage::AwaitRemote {
                primary_root,
                foreign,
                asked_at: if foreign {
                    Some(generation)
                } else {
                    None
                },
            },
            ChildAction::AskRemote,
        ),
    }
}

/// Begin a listing.
pub fn begin_children(plan: &ChildrenPlan, generation: u64) -> (r: (ChildStage, ChildAction))
    ensures
        r == child_start(*plan, generation),
{
    match plan {
        ChildrenPlan::Missing => (ChildStage::Over, ChildAction::Fail(Errno::Noent)),
        ChildrenPlan::SharedRoot => (ChildStage::Over, ChildAction::SharedRoot),
        ChildrenPlan::Resident { reconcile } => if *reconcile {
            (
                ChildStage::AwaitVirtual { sizes: false },
                ChildAction::ReconcileVirtual { listed: false },
            )
        } else {
            (
                ChildStage::Over,
                ChildAction::Done { listed: false, fresh: false, sizes: false },
            )
        },
        ChildrenPlan::Load { primary_root, foreign, .. } => (
            ChildStage::AwaitRows { primary_root: *primary_root, foreign: *foreign },
            ChildAction::ReadRows,
        ),
        ChildrenPlan::Enumerate { primary_root, foreign, .. } => (
            ChildStage::AwaitRemote {
                primary_root: *primary_root,
                foreign: *foreign,
                asked_at: if *foreign {
                    Some(generation)
                } else {
                    None
                },
            },
            ChildAction::AskRemote,
        ),
    }
}

/// Whether `event` is what the machine waits for. The nodes of a foreign folder come
/// only by a refresh.
pub open spec fn child_expects(stage: ChildStage, event: ChildEvent) -> bool {
    match event {
        ChildEvent::Rows(_) => stage is AwaitRows,
        ChildEvent::Remote { ok, .. } => stage matches ChildStage::AwaitRemote {
            foreign,
            asked_at,
            ..
        } && (ok && foreign ==> asked_at is Some),
        ChildEvent::Stored(_) => stage is AwaitForeignRows || stage is AwaitForeignSnapshot,
        ChildEvent::Published(_) => stage is AwaitPublication,
        ChildEvent::Virtual(_) => stage is AwaitVirtual,
    }
}

/// What follows on `event`.
pub open spec fn child_after(stage: ChildStage, event: ChildEvent) -> (ChildStage, ChildAction) {
    let failed = (ChildStage::Over, ChildAction::Fail(Errno::Io));
    match stage {
        ChildStage::AwaitRows { primary_root, foreign } => if event->Rows_0 {
            (
                ChildStage::AwaitPublication { primary_root, foreign, fetched: false },
                ChildAction::Publish { without_virtual: primary_root },
            )
        } else {
            (
                ChildStage::AwaitRemote { primary_root, foreign, asked_at: None },
                ChildAction::AskRemote,
            )
        },
        ChildStage::AwaitRemote { primary_root, foreign: _, asked_at } => if !event->ok {
            failed
        } else {
            match asked_at {
                Some(generation) => if generation == event->generation {
                    (ChildStage::AwaitForeignRows, ChildAction::StoreForeign)
                } else {
                    (ChildStage::Over, ChildAction::Fail(Errno::Again))
                },
                None => (
                    ChildStage::AwaitPublication { primary_root, foreign: false, fetched: true },
                    ChildAction::Publish { without_virtual: false },
                ),
            }
        },
        ChildStage::AwaitForeignRows => if event->Stored_0 {
            (ChildStage::AwaitForeignSnapshot, ChildAction::LoadForeign)
        } else {
            failed
        },
        ChildStage::AwaitForeignSnapshot => if event->Stored_0 {
            (
                ChildStage::AwaitPublication { primary_root: false, foreign: true, fetched: true },
                ChildAction::PublishForeign,
            )
        } else {
            failed
        },
        ChildStage::AwaitPublication { primary_root, foreign, fetched } => if !event->Published_0 {
            (
                ChildStage::Over,
                ChildAction::Done { listed: false, fresh: false, sizes: false },
            )
        } else if primary_root {
            (
                ChildStage::AwaitVirtual { sizes: true },
                ChildAction::ReconcileVirtual { listed: fetched },
            )
        } else {
            (
                ChildStage::Over,
                ChildAction::Done {
                    listed: fetched && !foreign,
                    fresh: fetched && foreign,
                    sizes: true,
                },
            )
        },
        ChildStage::AwaitVirtual { sizes } => match event->Virtual_0 {
            Some(e) => (ChildStage::Over, ChildAction::Fail(e)),
            None => (ChildStage::Over, ChildAction::Done { listed: false, fresh: false, sizes }),
        },
        ChildStage::Over => failed,
    }
}

/// Take the answer to the last step of a listing, and say what to do next.
pub fn ensure_children(stage: ChildStage, event: ChildEvent) -> (r: (ChildStage, ChildAction))
    requires
        child_expects(stage, event),
    ensures
        r == child_after(stage, event),
{
    let failed = (ChildStage::Over, ChildAction::Fail(Errno::Io));
    match event {
        ChildEvent::Rows(found) => match stage {
            ChildStage::AwaitRows { primary_root, foreign } => if found {
                (
                    ChildStage::AwaitPublication { primary_root, foreign, fetched: false },
                    ChildAction::Publish { without_virtual: primary_root },
                )
            } else {
                (
                    ChildStage::AwaitRemote { primary_root, foreign, asked_at: None },
                    ChildAction::AskRemote,
                )
            },
            _ => failed,
        },
        ChildEvent::Remote { ok, generation } => match stage {
            ChildStage::AwaitRemote { primary_root, foreign: _, asked_at } => if !ok {
                failed
            } else {
                match asked_at {
                    Some(at) => if refresh_generation_is_current(at, generation) {
                        (ChildStage::AwaitForeignRows, ChildAction::StoreForeign)
                    } else {
                        (ChildStage::Over, ChildAction::Fail(Errno::Again))
                    },
                    None => (
                        ChildStage::AwaitPublication {
                            primary_root,
                            foreign: false,
                            fetched: true,
                        },
                        ChildAction::Publish { without_virtual: false },
                    ),
                }
            },
            _ => failed,
        },
        ChildEvent::Stored(ok) => match stage {
            ChildStage::AwaitForeignRows => if ok {
                (ChildStage::AwaitForeignSnapshot, ChildAction::LoadForeign)
            } else {
                failed
            },
            ChildStage::AwaitForeignSnapshot => if ok {
                (
                    ChildStage::AwaitPublication {
                        primary_root: false,
                        foreign: true,
                        fetched: true,
                    },
                    ChildAction::PublishForeign,
                )
            } else {
                failed
            },
            _ => failed,
        },
        ChildEvent::Published(taken) => match stage {
            ChildStage::AwaitPublication { primary_root, foreign, fetched } => if !taken {
                (
                    ChildStage::Over,
                    ChildAction::Done { listed: false, fresh: false, sizes: false },
                )
            } else if primary_root {
                (
                    ChildStage::AwaitVirtual { sizes: true },
                    ChildAction::ReconcileVirtual { listed: fetched },
                )
            } else {
                (
                    ChildStage::Over,
                    ChildAction::Done {
                        listed: fetched && !foreign,
                        fresh: fetched && foreign,
                        sizes: true,
                    },
                )
            },
            _ => failed,
        },
        ChildEvent::Virtual(said) => match stage {
            ChildStage::AwaitVirtual { sizes } => match said {
                Some(e) => (ChildStage::Over, ChildAction::Fail(e)),
                None => (
                    ChildStage::Over,
                    ChildAction::Done { listed: false, fresh: false, sizes },
                ),
            },
            _ => failed,
        },
    }
}

/// A foreign listing that was asked for before an event withdrew it is never stored
/// or published: the caller is told to try again.
pub proof fn law_stale_refresh_is_discarded(
    primary_root: bool,
    foreign: bool,
    at: u64,
    now: u64,
)
    requires
        at != now,
    ensures
        child_after(
            ChildStage::AwaitRemote { primary_root, foreign, asked_at: Some(at) },
            ChildEvent::Remote { ok: true, generation: now },
        ) == (ChildStage::Over, ChildAction::Fail(Errno::Again)),
        shared_after(
            SharedStage::AwaitNodes { generation: at },
            SharedEvent::Nodes { ok: true, generation: now },
        ) == (SharedStage::Over, SharedAction::Fail(Errno::Again)),
{
}

/// Where the machine of what others share is.
#[derive(Debug, Clone, Copy, PartialEq, Eq, Structural)]
pub enum SharedStage {
    AwaitPersisted,
    /// The shares were asked for.
    AwaitShares { generation: u64 },
    /// The shared nodes were asked for.
    AwaitNodes { generation: u64 },
    /// The rows are being replaced.
    AwaitRows,
    /// The rows were asked for again.
    AwaitSnapshot,
    Over,
}

/// What the machine of what others share is told.
#[derive(Debug, Clone, Copy, PartialEq, Eq, Structural)]
pub enum SharedEvent {
    Persisted(bool),
    /// Whether the shares came, and whether there are any.
    Shares { ok: bool, any: bool, generation: u64 },
    Nodes { ok: bool, generation: u64 },
    Stored(bool),
}

/// What is to be done for what others share.
#[derive(Debug, Clone, Copy, PartialEq, Eq, Structural)]
pub enum SharedAction {
    ReadPersisted,
    PublishPersisted,
    AskShares,
    AskNodes,
    /// Replace the rows with what was accepted.
    StoreRows,
    /// The rows could not be replaced: what was accepted loses its access, and the
    /// request fails.
    Reject(Errno),
    LoadRows,
    /// Publish the listing, stamp it as fresh, and tell the kernel.
    PublishRefreshed,
    Done,
    Fail(Errno),
}

/// How the listing of what others share begins.
pub fn begin_shared(plan: SharedListingPlan, generation: u64) -> (r: (SharedStage, SharedAction))
    ensures
        r == (match plan {
            SharedListingPlan::Resident => (SharedStage::Over, SharedAction::Done),
            SharedListingPlan::Persisted => (
                SharedStage::AwaitPersisted,
                SharedAction::ReadPersisted,
            ),
            SharedListingPlan::Refresh => (
                SharedStage::AwaitShares { generation },
                SharedAction::AskShares,
            ),
        }),
{
    match plan {
        SharedListingPlan::Resident => (SharedStage::Over, SharedAction::Done),
        SharedListingPlan::Persisted => (SharedStage::AwaitPersisted, SharedAction::ReadPersisted),
        SharedListingPlan::Refresh => (
            SharedStage::AwaitShares { generation },
            SharedAction::AskShares,
        ),
    }
}

/// Whether `event` is what the machine waits for.
pub open spec fn shared_expects(stage: SharedStage, event: SharedEvent) -> bool {
    match event {
        SharedEvent::Persisted(_) => stage is AwaitPersisted,
        SharedEvent::Shares { .. } => stage is AwaitShares,
        SharedEvent::Nodes { .. } => stage is AwaitNodes,
        SharedEvent::Stored(_) => stage is AwaitRows || stage is AwaitSnapshot,
    }
}

/// What follows once the accepted shares are known, with the generation by then.
pub open spec fn shared_accepted(at: u64, now: u64) -> (SharedStage, SharedAction) {
    if at == now {
        (SharedStage::AwaitRows, SharedAction::StoreRows)
    } else {
        (SharedStage::Over, SharedAction::Fail(Errno::Again))
    }
}

/// What follows on `event`.
pub open spec fn shared_after(stage: SharedStage, event: SharedEvent) -> (
    SharedStage,
    SharedAction,
) {
    let failed = (SharedStage::Over, SharedAction::Fail(Errno::Io));
    match stage {
        SharedStage::AwaitPersisted => if event->Persisted_0 {
            (SharedStage::Over, SharedAction::PublishPersisted)
        } else {
            failed
        },
        SharedStage::AwaitShares { generation } => if !event->Shares_ok {
            failed
        } else if event->any {
            (SharedStage::AwaitNodes { generation }, SharedAction::AskNodes)
        } else {
            shared_accepted(generation, event->Shares_generation)
        },
        SharedStage::AwaitNodes { generation } => if !event->Nodes_ok {
            failed
        } else {
            shared_accepted(generation, event->Nodes_generation)
        },
        SharedStage::AwaitRows => if event->Stored_0 {
            (SharedStage::AwaitSnapshot, SharedAction::LoadRows)
        } else {
            (SharedStage::Over, SharedAction::Reject(Errno::Io))
        },
        SharedStage::AwaitSnapshot => if event->Stored_0 {
            (SharedStage::Over, SharedAction::PublishRefreshed)
        } else {
            failed
        },
        SharedStage::Over => failed,
    }
}

fn accepted(at: u64, now: u64) -> (r: (SharedStage, SharedAction))
    ensures
        r == shared_accepted(at, now),
{
    if refresh_generation_is_current(at, now) {
        (SharedStage::AwaitRows, SharedAction::StoreRows)
    } else {
        (SharedStage::Over, SharedAction::Fail(Errno::Again))
    }
}

/// Take the answer to the last step, and say what to do next.
pub fn ensure_shared_children(stage: SharedStage, event: SharedEvent) -> (r: (
    SharedStage,
    SharedAction,
))
    requires
        shared_expects(stage, event),
    ensures
        r == shared_after(stage, event),
{
    let failed = (SharedStage::Over, SharedAction::Fail(Errno::Io));
    match event {
        SharedEvent::Persisted(ok) => if ok {
            (SharedStage::Over, SharedAction::PublishPersisted)
        } else {
            failed
        },
        SharedEvent::Shares { ok, any, generation } => match stage {
            SharedStage::AwaitShares { generation: at } => if !ok {
                failed
            } else if any {
                (SharedStage::AwaitNodes { generation: at }, SharedAction::AskNodes)
            } else {
                accepted(at, generation)
            },
            _ => failed,
        },
        SharedEvent::Nodes { ok, generation } => match stage {
            SharedStage::AwaitNodes { generation: at } => if !ok {
                failed
            } else {
                accepted(at, generation)
            },
            _ => failed,
        },
        SharedEvent::Stored(ok) => match stage {
            SharedStage::AwaitRows => if ok {
                (SharedStage::AwaitSnapshot, SharedAction::LoadRows)
            } else {
                (SharedStage::Over, SharedAction::Reject(Errno::Io))
            },
            SharedStage::AwaitSnapshot => if ok {
                (SharedStage::Over, SharedAction::PublishRefreshed)
            } else {
                failed
            },
            _ => failed,
        },
    }
}

/// Withdraw every refresh that is under way: its generation is past.
pub fn invalidate_shared_refreshes(generation: u64) -> (r: u64)
    ensures
        r == (if generation == u64::MAX {
            0
        } else {
            (generation + 1) as int
        }),
        r != generation,
{
    generation.wrapping_add(1)
}

/// How many answers the machine of a listing waits for at most.
pub open spec fn child_left(stage: ChildStage) -> nat {
    match stage {
        ChildStage::AwaitRows { .. } => 6,
        ChildStage::AwaitRemote { .. } => 5,
        ChildStage::AwaitForeignRows => 4,
        ChildStage::AwaitForeignSnapshot => 3,
        ChildStage::AwaitPublication { .. } => 2,
        ChildStage::AwaitVirtual { .. } => 1,
        ChildStage::Over => 0,
    }
}

/// How many answers the machine of what others share waits for at most.
pub open spec fn shared_left(stage: SharedStage) -> nat {
    match stage {
        SharedStage::AwaitShares { .. } => 4,
        SharedStage::AwaitNodes { .. } => 3,
        SharedStage::AwaitRows => 2,
        SharedStage::AwaitSnapshot => 1,
        SharedStage::AwaitPersisted => 1,
        SharedStage::Over => 0,
    }
}

/// Every answer brings a listing closer to its end, which is that it is there or that
/// the request failed.
pub proof fn law_listing_ends(stage: ChildStage, event: ChildEvent)
    requires
        child_expects(stage, event),
    ensures
        ({
            let (next, action) = child_after(stage, event);
            &&& child_left(next) < child_left(stage)
            &&& next is Over <==> (action is Done || action is Fail)
        }),
{
}

/// Every answer brings the listing of what others share closer to its end. A failed
/// replacement of the rows costs what was accepted its access.
pub proof fn law_shared_listing_ends(stage: SharedStage, event: SharedEvent)
    requires
        shared_expects(stage, event),
    ensures
        ({
            let (next, action) = shared_after(stage, event);
            &&& shared_left(next) < shared_left(stage)
            &&& action is Reject <==> (stage is AwaitRows && event == SharedEvent::Stored(false))
        }),
{
}

/// A listing is stale where it was never stamped, and else once its time is over; what is
/// stale stays so.
pub proof fn law_listings_go_stale_in_time(stamp: Option<i64>, now: i64, later: i64, ttl: i64)
    requires
        ttl > i64::MIN,
    ensures
        stamp is None ==> is_stale(stamp, now, ttl),
        stamp is Some && now - stamp->0 >= ttl ==> is_stale(stamp, now, ttl),
        stamp is Some && now - stamp->0 < ttl ==> !is_stale(stamp, now, ttl),
        is_stale(stamp, now, ttl) && later >= now ==> is_stale(stamp, later, ttl),
{
}

/// What has happened outside while a folder is listed.
pub ghost struct ChildRun {
    pub stage: ChildStage,
    pub action: ChildAction,
    /// The persisted rows are complete.
    pub read: bool,
    /// The remote told of the children, at this generation.
    pub fetched: bool,
    pub told_at: u64,
    /// The rows of a foreign folder were replaced, and read back.
    pub stored: bool,
    pub loaded: bool,
    /// The tree took the listing, and where from.
    pub published: bool,
    pub foreign: bool,
    /// The listing was recorded as complete, and the synthetic folder reconciled with it.
    pub recorded: bool,
    pub reconciled: bool,
}

/// Whether an event answers an action.
pub open spec fn child_answers(action: ChildAction, event: ChildEvent) -> bool {
    match action {
        ChildAction::ReadRows => event is Rows,
        ChildAction::AskRemote => event is Remote,
        ChildAction::StoreForeign => event is Stored,
        ChildAction::LoadForeign => event is Stored,
        ChildAction::Publish { .. } => event is Published,
        ChildAction::PublishForeign => event is Published,
        ChildAction::ReconcileVirtual { .. } => event is Virtual,
        _ => false,
    }
}

/// A listing so far, and what it did.
pub open spec fn child_run(plan: ChildrenPlan, generation: u64, events: Seq<ChildEvent>) -> ChildRun
    decreases events.len(),
{
    if events.len() == 0 {
        let (stage, action) = child_start(plan, generation);
        ChildRun {
            stage,
            action,
            read: false,
            fetched: false,
            told_at: generation,
            stored: false,
            loaded: false,
            published: false,
            foreign: false,
            recorded: false,
            reconciled: false,
        }
    } else {
        let w = child_run(plan, generation, events.drop_last());
        let e = events.last();
        let (stage, action) = child_after(w.stage, e);
        let taken = e is Published && e->Published_0;
        ChildRun {
            stage,
            action,
            read: w.read || (w.action is ReadRows && e->Rows_0),
            fetched: w.fetched || (w.action is AskRemote && e->ok),
            told_at: if w.action is AskRemote && e->ok {
                e->generation
            } else {
                w.told_at
            },
            stored: w.stored || (w.action is StoreForeign && e->Stored_0),
            loaded: w.loaded || (w.action is LoadForeign && e->Stored_0),
            published: w.published || taken,
            foreign: w.foreign || (w.action is PublishForeign && taken),
            recorded: w.recorded || (w.action is ReconcileVirtual && w.action->ReconcileVirtual_listed)
                || (action is Done && action->Done_listed),
            reconciled: w.reconciled || (w.action is ReconcileVirtual && e->Virtual_0 is None),
        }
    }
}

/// Whether each event answers the action before it, in a state where it can come.
pub open spec fn child_fits(plan: ChildrenPlan, generation: u64, events: Seq<ChildEvent>) -> bool
    decreases events.len(),
{
    events.len() > 0 ==> {
        let w = child_run(plan, generation, events.drop_last());
        &&& child_fits(plan, generation, events.drop_last())
        &&& child_answers(w.action, events.last())
        &&& child_expects(w.stage, events.last())
    }
}

proof fn lemma_child_run(plan: ChildrenPlan, generation: u64, events: Seq<ChildEvent>)
    requires
        child_fits(plan, generation, events),
    ensures
        ({
            let w = child_run(plan, generation, events);
            &&& w.stored ==> w.fetched && w.told_at == generation && plan is Enumerate
            &&& w.loaded ==> w.stored
            &&& w.foreign ==> w.published && w.loaded
            &&& w.published ==> w.read || w.fetched
            &&& w.reconciled ==> w.action is Done
            &&& match w.stage {
                ChildStage::AwaitRows { primary_root, foreign } => {
                    &&& w.action is ReadRows && plan is Load
                    &&& plan->Load_primary_root == primary_root && plan->Load_foreign == foreign
                    &&& !w.read && !w.fetched && !w.published && !w.recorded
                },
                ChildStage::AwaitRemote { primary_root, foreign, asked_at } => {
                    &&& w.action is AskRemote && !w.read && !w.fetched && !w.published
                        && !w.recorded
                    &&& plan is Load ==> asked_at is None && plan->Load_primary_root
                        == primary_root && plan->Load_foreign == foreign
                    &&& plan is Enumerate ==> plan->Enumerate_primary_root == primary_root
                        && plan->Enumerate_foreign == foreign && asked_at == (if foreign {
                        Some(generation)
                    } else {
                        None
                    })
                    &&& plan is Load || plan is Enumerate
                },
                ChildStage::AwaitForeignRows => {
                    &&& w.action is StoreForeign && w.fetched && w.told_at == generation
                    &&& plan is Enumerate && plan->Enumerate_foreign && !w.published && !w.recorded
                },
                ChildStage::AwaitForeignSnapshot => {
                    &&& w.action is LoadForeign && w.stored && !w.published && !w.recorded
                    &&& plan is Enumerate && plan->Enumerate_foreign
                },
                ChildStage::AwaitPublication { primary_root, foreign, fetched } => {
                    &&& fetched == w.fetched && !w.published && !w.recorded
                    &&& !fetched ==> w.read && w.action == (ChildAction::Publish {
                        without_virtual: primary_root,
                    }) && plan is Load && primary_root == plan->Load_primary_root
                    &&& fetched && foreign ==> w.action is PublishForeign && w.loaded
                        && !primary_root && plan is Enumerate && plan->Enumerate_foreign
                    &&& fetched && !foreign ==> w.action == (ChildAction::Publish {
                        without_virtual: false,
                    }) && (plan is Load ==> primary_root == plan->Load_primary_root) && (plan
                        is Enumerate ==> primary_root == plan->Enumerate_primary_root
                        && !plan->Enumerate_foreign) && (plan is Load || plan is Enumerate)
                },
                ChildStage::AwaitVirtual { sizes } => {
                    &&& w.action is ReconcileVirtual && sizes == w.published && !w.foreign
                        && !w.recorded
                    &&& w.action->ReconcileVirtual_listed <==> w.published && w.fetched
                    &&& plan is Load || plan is Enumerate || plan is Resident
                    &&& plan is Load ==> plan->Load_primary_root
                    &&& plan is Enumerate ==> plan->Enumerate_primary_root
                        && !plan->Enumerate_foreign
                },
                ChildStage::Over => true,
            }
        }),
    decreases events.len(),
{
    if events.len() > 0 {
        lemma_child_run(plan, generation, events.drop_last());
    }
}

/// Whatever the answers, a listing ends in what is true of it. It is recorded as complete
/// just where the remote told of it and the tree took it; a foreign one is stamped as fresh
/// just where no invalidation came between and its rows were replaced and read back; sizes
/// are asked for just where the tree took it; and the primary root is done only once the
/// synthetic folder was reconciled with it.
pub proof fn law_listing_tells_the_truth(
    plan: ChildrenPlan,
    generation: u64,
    events: Seq<ChildEvent>,
)
    requires
        child_fits(plan, generation, events),
    ensures
        ({
            let w = child_run(plan, generation, events);
            &&& w.recorded ==> w.fetched && w.published && !w.foreign
            &&& w.action is Publish ==> w.read || w.fetched
            &&& w.action is Publish ==> (w.action->without_virtual ==> !w.fetched)
            &&& w.action is StoreForeign ==> w.fetched && w.told_at == generation
            &&& w.action is PublishForeign ==> w.stored && w.loaded
            &&& w.action is Done ==> {
                &&& w.action->Done_listed ==> w.fetched && w.published && !w.foreign
                &&& w.action->Done_fresh <==> w.foreign
                &&& w.action->Done_fresh ==> w.told_at == generation && w.stored && w.loaded
                &&& w.action->Done_sizes <==> w.published
                &&& w.published && w.fetched && !w.foreign ==> w.recorded
                &&& plan is Load && plan->Load_primary_root && w.published ==> w.reconciled
                &&& plan is Enumerate && plan->Enumerate_primary_root && !plan->Enumerate_foreign
                    && w.published ==> w.reconciled
            }
        }),
    decreases events.len(),
{
    lemma_child_run(plan, generation, events);
    if events.len() > 0 {
        lemma_child_run(plan, generation, events.drop_last());
        law_listing_tells_the_truth(plan, generation, events.drop_last());
    }
}

/// A listing fails just where something failed: the remote, the store, the synthetic
/// folder, or where an invalidation came while the remote was asked. Then it fails with
/// that, and in no other case.
pub proof fn law_listing_fails_only_on_a_failure(
    plan: ChildrenPlan,
    generation: u64,
    events: Seq<ChildEvent>,
)
    requires
        events.len() > 0,
        child_fits(plan, generation, events),
    ensures
        ({
            let w = child_run(plan, generation, events);
            let e = events.last();
            &&& w.action is Fail <==> {
                ||| e is Remote && !e->ok
                ||| e is Remote && e->generation != generation && plan is Enumerate
                    && plan->Enumerate_foreign
                ||| e is Stored && !e->Stored_0
                ||| e is Virtual && e->Virtual_0 is Some
            }
            &&& e is Remote && !e->ok ==> w.action == ChildAction::Fail(Errno::Io)
            &&& e is Remote && e->ok && w.action is Fail ==> w.action == ChildAction::Fail(
                Errno::Again,
            )
            &&& e is Virtual && e->Virtual_0 is Some ==> w.action == ChildAction::Fail(
                e->Virtual_0->0,
            )
            &&& e is Rows && !e->Rows_0 ==> w.action is AskRemote
            &&& e is Published && !e->Published_0 ==> w.action is Done
        }),
{
    lemma_child_run(plan, generation, events);
    lemma_child_run(plan, generation, events.drop_last());
}

/// What a listing starts with: an unknown folder fails, a listing that is there is done, one
/// that is stored is read, and else the remote is asked.
pub proof fn law_listing_starts_with_its_plan(plan: ChildrenPlan, generation: u64)
    ensures
        child_start(plan, generation).1 is Fail <==> plan is Missing,
        child_start(plan, generation).1 is SharedRoot <==> plan is SharedRoot,
        child_start(plan, generation).1 is ReadRows <==> plan is Load,
        child_start(plan, generation).1 is AskRemote <==> plan is Enumerate,
        child_start(plan, generation).1 is Done <==> plan is Resident && !plan->reconcile,
        child_start(plan, generation).1 is ReconcileVirtual <==> plan is Resident
            && plan->reconcile,
        child_start(plan, generation).1 is Done ==> !child_start(plan, generation).1->Done_listed
            && !child_start(plan, generation).1->Done_fresh && !child_start(
            plan,
            generation,
        ).1->Done_sizes,
{
}

/// What has happened outside while what others share is listed.
pub ghost struct SharedRun {
    pub stage: SharedStage,
    pub action: SharedAction,
    /// The shares came, whether there are any, and the nodes.
    pub shares: bool,
    pub any: bool,
    pub nodes: bool,
    /// The generation when the last of them came.
    pub told_at: u64,
    pub stored: bool,
    pub loaded: bool,
}

/// Whether an event answers an action.
pub open spec fn shared_answers(action: SharedAction, event: SharedEvent) -> bool {
    match action {
        SharedAction::ReadPersisted => event is Persisted,
        SharedAction::AskShares => event is Shares,
        SharedAction::AskNodes => event is Nodes,
        SharedAction::StoreRows => event is Stored,
        SharedAction::LoadRows => event is Stored,
        _ => false,
    }
}

/// A refresh of what others share so far, and what it did.
pub open spec fn shared_run(generation: u64, events: Seq<SharedEvent>) -> SharedRun
    decreases events.len(),
{
    if events.len() == 0 {
        SharedRun {
            stage: SharedStage::AwaitShares { generation },
            action: SharedAction::AskShares,
            shares: false,
            any: false,
            nodes: false,
            told_at: generation,
            stored: false,
            loaded: false,
        }
    } else {
        let w = shared_run(generation, events.drop_last());
        let e = events.last();
        let (stage, action) = shared_after(w.stage, e);
        SharedRun {
            stage,
            action,
            shares: w.shares || (w.action is AskShares && e->Shares_ok),
            any: w.any || (w.action is AskShares && e->Shares_ok && e->any),
            nodes: w.nodes || (w.action is AskNodes && e->Nodes_ok),
            told_at: if w.action is AskShares && e->Shares_ok {
                e->Shares_generation
            } else if w.action is AskNodes && e->Nodes_ok {
                e->Nodes_generation
            } else {
                w.told_at
            },
            stored: w.stored || (w.action is StoreRows && e->Stored_0),
            loaded: w.loaded || (w.action is LoadRows && e->Stored_0),
        }
    }
}

/// Whether each event answers the action before it.
pub open spec fn shared_fits(generation: u64, events: Seq<SharedEvent>) -> bool
    decreases events.len(),
{
    events.len() > 0 ==> shared_fits(generation, events.drop_last()) && shared_answers(
        shared_run(generation, events.drop_last()).action,
        events.last(),
    )
}

proof fn lemma_shared_run(generation: u64, events: Seq<SharedEvent>)
    requires
        shared_fits(generation, events),
    ensures
        ({
            let w = shared_run(generation, events);
            &&& w.nodes ==> w.shares && w.any
            &&& w.stored ==> w.shares && (w.any ==> w.nodes) && w.told_at == generation
            &&& w.loaded ==> w.stored
            &&& match w.stage {
                SharedStage::AwaitShares { generation: at } => w.action is AskShares && at
                    == generation && !w.shares && !w.any && !w.nodes && !w.stored,
                SharedStage::AwaitNodes { generation: at } => w.action is AskNodes && at
                    == generation && w.shares && w.any && !w.nodes && !w.stored,
                SharedStage::AwaitRows => w.action is StoreRows && w.shares && (w.any ==> w.nodes)
                    && w.told_at == generation && !w.stored,
                SharedStage::AwaitSnapshot => w.action is LoadRows && w.stored && !w.loaded,
                SharedStage::AwaitPersisted => false,
                SharedStage::Over => w.action is PublishRefreshed || w.action is Fail || w.action
                    is Reject,
            }
        }),
    decreases events.len(),
{
    if events.len() > 0 {
        lemma_shared_run(generation, events.drop_last());
    }
}

/// What others share is published as fresh just where the shares came, their nodes did
/// where there are any, no invalidation came between, and the rows were replaced and read
/// back. It fails just where one of these failed, and what was accepted loses its access
/// just where its rows could not be replaced.
pub proof fn law_shared_listing_tells_the_truth(generation: u64, events: Seq<SharedEvent>)
    requires
        events.len() > 0,
        shared_fits(generation, events),
    ensures
        ({
            let w = shared_run(generation, events);
            let before = shared_run(generation, events.drop_last());
            let e = events.last();
            &&& w.action is PublishRefreshed ==> w.shares && (w.any ==> w.nodes) && w.stored
                && w.loaded && w.told_at == generation
            &&& w.action is StoreRows ==> w.shares && (w.any ==> w.nodes) && w.told_at
                == generation
            &&& w.action is AskNodes <==> e is Shares && e->Shares_ok && e->any
            &&& w.action is Reject <==> before.action is StoreRows && !e->Stored_0
            &&& w.action is Fail || w.action is Reject <==> {
                ||| e is Shares && !e->Shares_ok
                ||| e is Shares && !e->any && e->Shares_generation != generation
                ||| e is Nodes && !e->Nodes_ok
                ||| e is Nodes && e->Nodes_generation != generation
                ||| e is Stored && !e->Stored_0
            }
            &&& e is Nodes && e->Nodes_ok && e->Nodes_generation != generation ==> w.action
                == SharedAction::Fail(Errno::Again)
            &&& before.action is LoadRows && e->Stored_0 ==> w.action is PublishRefreshed
            &&& !(w.action is PublishPersisted) && !(w.action is Done)
        }),
{
    lemma_shared_run(generation, events);
    lemma_shared_run(generation, events.drop_last());
}

/// What is stored of what others share is published just where it could be read.
pub proof fn law_persisted_shares_are_published_if_read(ok: bool)
    ensures
        shared_after(SharedStage::AwaitPersisted, SharedEvent::Persisted(ok)).1 is PublishPersisted
            <==> ok,
        shared_after(SharedStage::AwaitPersisted, SharedEvent::Persisted(ok)).1 is Fail <==> !ok,
{
}

} // verus!

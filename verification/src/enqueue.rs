//! Turning a scratch file into a queued upload.
//!
//! The steps alternate with the disk and the database, so they are a machine: it
//! is told how each action went and says what to do next. Bytes that the kernel
//! was already told are written are never dropped on the way.

use crate::access::must_preserve;
use crate::error::Errno;
use vstd::prelude::*;

verus! {

/// Why the store refused a write.
#[derive(Debug, Clone, Copy, PartialEq, Eq, Structural)]
pub enum StoreFault {
    DiskFull,
    Other,
}

/// What the caller of a failed write is told.
pub open spec fn fault_reading(f: StoreFault) -> Errno {
    match f {
        StoreFault::DiskFull => Errno::Nospc,
        StoreFault::Other => Errno::Io,
    }
}

/// What the caller of a failed write is told.
pub fn fault_errno(f: StoreFault) -> (r: Errno)
    ensures
        r == fault_reading(f),
{
    match f {
        StoreFault::DiskFull => Errno::Nospc,
        StoreFault::Other => Errno::Io,
    }
}

/// Why bytes are kept without being queued.
#[derive(Debug, Clone, Copy, PartialEq, Eq, Structural)]
pub enum OrphanReason {
    /// Found when a handle is released.
    AccessBeforeRelease,
    /// Found when the staged write is about to be queued.
    AccessBeforeQueue,
    Overlap,
}

/// The words for a reason.
pub open spec fn reason_words(reason: OrphanReason) -> Seq<char> {
    match reason {
        OrphanReason::AccessBeforeRelease => "access changed before the write could be queued"@,
        OrphanReason::AccessBeforeQueue =>
            "access changed before the staged write could be queued"@,
        OrphanReason::Overlap => "write overlaps an undrained incomplete edit"@,
    }
}

/// The words for a reason.
pub fn reason_text(reason: OrphanReason) -> (r: &'static str)
    ensures
        r@ == reason_words(reason),
{
    match reason {
        OrphanReason::AccessBeforeRelease => "access changed before the write could be queued",
        OrphanReason::AccessBeforeQueue =>
            "access changed before the staged write could be queued",
        OrphanReason::Overlap => "write overlaps an undrained incomplete edit",
    }
}

/// What the machine is told.
#[derive(Debug, Clone, Copy, PartialEq, Eq)]
pub enum EnqueueEvent {
    /// Whether the node may be written.
    Access(Result<(), Errno>),
    /// Whether the undrained write was folded in.
    Folded(bool),
    /// Whether the bytes were moved into staging.
    Staged(Result<(), StoreFault>),
    /// How the row was written: `Ok(true)` if it is queued, and `Ok(false)` if the
    /// creation that was to carry the bytes is gone.
    Queued(Result<bool, ()>),
    /// Whether the new size of the file was recorded.
    Recorded(Result<(), StoreFault>),
}

/// What is to be done.
#[derive(Debug, Clone, Copy, PartialEq, Eq)]
pub enum EnqueueAction {
    /// Fold the undrained write into the scratch file.
    Fold,
    /// Move the scratch file into staging.
    Stage,
    /// Cancel an upload of the node that is running, then let the bytes ride on
    /// the queued creation.
    AttachToCreate,
    /// Cancel an upload of the node that is running, then queue a revision.
    QueueRevision,
    /// Discard the blob that was superseded, note the write as pending, stamp the
    /// tree with its size and record that.
    Publish,
    /// Drop what is cached of the node, wake the drain, and answer.
    Settle(Result<(), Errno>),
    /// Keep the scratch file in staging without a row, and answer.
    Preserve(OrphanReason, Errno),
    /// Mark the scratch file durable, free cached blobs if `evict`, and answer.
    MarkDurable { evict: bool, errno: Errno },
    /// Answer. The bytes are in staging already, or were never taken.
    Refuse(Errno),
}

/// Where the machine is.
#[derive(Debug, Clone, Copy, PartialEq, Eq, Structural)]
pub enum EnqueueStage {
    AwaitAccess,
    AwaitFold,
    AwaitStaging,
    AwaitQueue,
    AwaitRecord,
    Over,
}

/// One staged write on its way into the queue.
#[derive(Debug, Clone, Copy, PartialEq, Eq, Structural)]
pub struct Enqueue {
    /// Whether the node exists only locally.
    pub local: bool,
    /// Whether the blob is the whole file.
    pub complete: bool,
    /// Whether an earlier write of the node is undrained.
    pub previous: bool,
    pub stage: EnqueueStage,
}

impl Enqueue {
    /// Whether `event` is what the machine waits for.
    pub open spec fn expects(self, event: EnqueueEvent) -> bool {
        match event {
            EnqueueEvent::Access(_) => self.stage is AwaitAccess,
            EnqueueEvent::Folded(_) => self.stage is AwaitFold,
            EnqueueEvent::Staged(_) => self.stage is AwaitStaging,
            EnqueueEvent::Queued(_) => self.stage is AwaitQueue,
            EnqueueEvent::Recorded(_) => self.stage is AwaitRecord,
        }
    }

    /// What follows on `event`.
    pub open spec fn after(self, event: EnqueueEvent) -> (EnqueueStage, EnqueueAction) {
        match event {
            EnqueueEvent::Access(Err(e)) => (
                EnqueueStage::Over,
                if e == Errno::Acces {
                    EnqueueAction::Preserve(OrphanReason::AccessBeforeQueue, e)
                } else {
                    EnqueueAction::Refuse(e)
                },
            ),
            EnqueueEvent::Access(Ok(_)) => if !self.complete && self.previous {
                (EnqueueStage::AwaitFold, EnqueueAction::Fold)
            } else {
                (EnqueueStage::AwaitStaging, EnqueueAction::Stage)
            },
            EnqueueEvent::Folded(false) => (
                EnqueueStage::Over,
                EnqueueAction::Preserve(OrphanReason::Overlap, Errno::Io),
            ),
            EnqueueEvent::Folded(true) => (EnqueueStage::AwaitStaging, EnqueueAction::Stage),
            EnqueueEvent::Staged(Err(f)) => (
                EnqueueStage::Over,
                EnqueueAction::MarkDurable { evict: f is DiskFull, errno: fault_reading(f) },
            ),
            EnqueueEvent::Staged(Ok(_)) => (
                EnqueueStage::AwaitQueue,
                if self.local {
                    EnqueueAction::AttachToCreate
                } else {
                    EnqueueAction::QueueRevision
                },
            ),
            EnqueueEvent::Queued(Ok(true)) => (EnqueueStage::AwaitRecord, EnqueueAction::Publish),
            EnqueueEvent::Queued(_) => (EnqueueStage::Over, EnqueueAction::Refuse(Errno::Io)),
            EnqueueEvent::Recorded(Ok(_)) => (EnqueueStage::Over, EnqueueAction::Settle(Ok(()))),
            EnqueueEvent::Recorded(Err(f)) => (
                EnqueueStage::Over,
                EnqueueAction::Settle(Err(fault_reading(f))),
            ),
        }
    }

    /// The machine after `event`.
    pub open spec fn next(self, event: EnqueueEvent) -> Enqueue {
        Enqueue { stage: self.after(event).0, ..self }
    }
}

/// Begin to queue a staged write.
pub fn enqueue_staged_write(local: bool, complete: bool, previous: bool) -> (r: Enqueue)
    ensures
        r == (Enqueue { local, complete, previous, stage: EnqueueStage::AwaitAccess }),
{
    Enqueue { local, complete, previous, stage: EnqueueStage::AwaitAccess }
}

impl Enqueue {
    /// Take the answer to the last action, and say what to do next.
    pub fn step(&mut self, event: EnqueueEvent) -> (r: EnqueueAction)
        requires
            old(self).expects(event),
        ensures
            *final(self) == old(self).next(event),
            r == old(self).after(event).1,
    {
        let (stage, action): (EnqueueStage, EnqueueAction) = match event {
            EnqueueEvent::Access(access) => match access {
                Err(e) => (
                    EnqueueStage::Over,
                    if must_preserve(access, true) {
                        EnqueueAction::Preserve(OrphanReason::AccessBeforeQueue, e)
                    } else {
                        EnqueueAction::Refuse(e)
                    },
                ),
                Ok(_) => if !self.complete && self.previous {
                    (EnqueueStage::AwaitFold, EnqueueAction::Fold)
                } else {
                    (EnqueueStage::AwaitStaging, EnqueueAction::Stage)
                },
            },
            EnqueueEvent::Folded(folded) => if folded {
                (EnqueueStage::AwaitStaging, EnqueueAction::Stage)
            } else {
                (EnqueueStage::Over, EnqueueAction::Preserve(OrphanReason::Overlap, Errno::Io))
            },
            EnqueueEvent::Staged(staged) => match staged {
                Err(f) => {
                    let evict = match f {
                        StoreFault::DiskFull => true,
                        StoreFault::Other => false,
                    };
                    (
                        EnqueueStage::Over,
                        EnqueueAction::MarkDurable { evict, errno: fault_errno(f) },
                    )
                },
                Ok(_) => if self.local {
                    (EnqueueStage::AwaitQueue, EnqueueAction::AttachToCreate)
                } else {
                    (EnqueueStage::AwaitQueue, EnqueueAction::QueueRevision)
                },
            },
            EnqueueEvent::Queued(queued) => match queued {
                Ok(true) => (EnqueueStage::AwaitRecord, EnqueueAction::Publish),
                Ok(false) => (EnqueueStage::Over, EnqueueAction::Refuse(Errno::Io)),
                Err(_) => (EnqueueStage::Over, EnqueueAction::Refuse(Errno::Io)),
            },
            EnqueueEvent::Recorded(recorded) => match recorded {
                Ok(_) => (EnqueueStage::Over, EnqueueAction::Settle(Ok(()))),
                Err(f) => (EnqueueStage::Over, EnqueueAction::Settle(Err(fault_errno(f)))),
            },
        };
        self.stage = stage;
        action
    }
}

/// The machine after a run of events.
pub open spec fn run(m: Enqueue, events: Seq<EnqueueEvent>) -> Enqueue
    decreases events.len(),
{
    if events.len() == 0 {
        m
    } else {
        run(m, events.drop_last()).next(events.last())
    }
}

/// Whether each event is the one that the machine waits for.
pub open spec fn fits(m: Enqueue, events: Seq<EnqueueEvent>) -> bool
    decreases events.len(),
{
    events.len() > 0 ==> fits(m, events.drop_last()) && run(m, events.drop_last()).expects(
        events.last(),
    )
}

/// Whether the event is that the bytes were moved into staging.
pub open spec fn staged_well(e: EnqueueEvent) -> bool {
    e matches EnqueueEvent::Staged(r) && r is Ok
}

/// Whether the bytes were moved into staging in the course of a run.
pub open spec fn reached_staging(events: Seq<EnqueueEvent>) -> bool {
    exists|i: int| 0 <= i < events.len() && staged_well(#[trigger] events[i])
}

proof fn lemma_staging_precedes_the_queue(m: Enqueue, events: Seq<EnqueueEvent>)
    requires
        m.stage is AwaitAccess,
        fits(m, events),
    ensures
        ({
            let now = run(m, events);
            &&& (now.stage is AwaitQueue || now.stage is AwaitRecord) ==> reached_staging(events)
            &&& now.local == m.local && now.complete == m.complete && now.previous == m.previous
        }),
    decreases events.len(),
{
    if events.len() > 0 {
        let rest = events.drop_last();
        lemma_staging_precedes_the_queue(m, rest);
        let now = run(m, events);
        let last = events.last();
        if now.stage is AwaitQueue {
            assert(events[events.len() - 1] == last);
            assert(staged_well(last));
        }
        if now.stage is AwaitRecord {
            let i = choose|i: int|
                0 <= i < rest.len() && staged_well(#[trigger] rest[i]);
            assert(events[i] == rest[i]);
        }
    }
}

/// Accepted bytes are never dropped: however a run ends, either they reached
/// staging, or the last action keeps them. `e` is the last event. The access check
/// either passes or refuses for want of permission.
pub proof fn law_bytes_are_never_dropped(m: Enqueue, events: Seq<EnqueueEvent>, e: EnqueueEvent)
    requires
        m.stage is AwaitAccess,
        fits(m, events.push(e)),
        run(m, events.push(e)).stage is Over,
        e matches EnqueueEvent::Access(Err(x)) ==> x == Errno::Acces,
    ensures
        ({
            let action = run(m, events).after(e).1;
            reached_staging(events) || action is Preserve || action is MarkDurable
        }),
{
    assert(events.push(e).drop_last() =~= events);
    lemma_staging_precedes_the_queue(m, events);
}

/// A write is answered with success only when its bytes are in staging, its row
/// is queued, and its size is recorded.
pub proof fn law_success_means_queued(m: Enqueue, events: Seq<EnqueueEvent>, e: EnqueueEvent)
    requires
        m.stage is AwaitAccess,
        fits(m, events.push(e)),
        run(m, events).after(e).1 == EnqueueAction::Settle(Ok(())),
    ensures
        reached_staging(events),
        events.len() > 0 && events.last() == EnqueueEvent::Queued(Ok(true)),
        e matches EnqueueEvent::Recorded(r) && r is Ok,
{
    assert(events.push(e).drop_last() =~= events);
    lemma_staging_precedes_the_queue(m, events);
    assert(run(m, events).stage is AwaitRecord);
    assert(events.len() > 0);
}

/// How many answers the machine waits for at most.
pub open spec fn answers_left(stage: EnqueueStage) -> nat {
    match stage {
        EnqueueStage::AwaitAccess => 5,
        EnqueueStage::AwaitFold => 4,
        EnqueueStage::AwaitStaging => 3,
        EnqueueStage::AwaitQueue => 2,
        EnqueueStage::AwaitRecord => 1,
        EnqueueStage::Over => 0,
    }
}

/// Whether an action answers the caller.
pub open spec fn answers(action: EnqueueAction) -> bool {
    action is Settle || action is Preserve || action is MarkDurable || action is Refuse
}

/// Every answer brings the machine closer to its end, and the caller is answered just
/// when it is there.
pub proof fn law_enqueue_ends(m: Enqueue, e: EnqueueEvent)
    requires
        m.expects(e),
    ensures
        answers_left(m.next(e).stage) < answers_left(m.stage),
        m.next(e).stage is Over <==> answers(m.after(e).1),
{
}

/// What has happened to a staged write while it is queued.
pub ghost struct Queueing {
    pub machine: Enqueue,
    pub action: Option<EnqueueAction>,
    /// It may be written, it was joined with the write before it, and it is on disk.
    pub allowed: bool,
    pub folded: bool,
    pub staged: bool,
    /// It is in the queue, with the file it creates or as a revision of its own.
    pub attached: bool,
    pub queued: bool,
    /// Readers are given it, and it is recorded.
    pub published: bool,
    pub recorded: bool,
}

/// Whether an event answers an action; the first question is whether it may be written.
pub open spec fn enqueue_answers(action: Option<EnqueueAction>, event: EnqueueEvent) -> bool {
    match action {
        None => event is Access,
        Some(EnqueueAction::Fold) => event is Folded,
        Some(EnqueueAction::Stage) => event is Staged,
        Some(EnqueueAction::AttachToCreate) => event is Queued,
        Some(EnqueueAction::QueueRevision) => event is Queued,
        Some(EnqueueAction::Publish) => event is Recorded,
        _ => false,
    }
}

/// The queueing of a write so far, and what it did.
pub open spec fn queueing(m: Enqueue, events: Seq<EnqueueEvent>) -> Queueing
    decreases events.len(),
{
    if events.len() == 0 {
        Queueing {
            machine: Enqueue { stage: EnqueueStage::AwaitAccess, ..m },
            action: None,
            allowed: false,
            folded: false,
            staged: false,
            attached: false,
            queued: false,
            published: false,
            recorded: false,
        }
    } else {
        let w = queueing(m, events.drop_last());
        let e = events.last();
        let action = w.machine.after(e).1;
        Queueing {
            machine: w.machine.next(e),
            action: Some(action),
            allowed: w.allowed || (w.action is None && e->Access_0 is Ok),
            folded: w.folded || (w.action == Some(EnqueueAction::Fold) && e->Folded_0),
            staged: w.staged || (w.action == Some(EnqueueAction::Stage) && e->Staged_0 is Ok),
            attached: w.attached || (w.action == Some(EnqueueAction::AttachToCreate)
                && e->Queued_0 == Ok::<bool, ()>(true)),
            queued: w.queued || (w.action == Some(EnqueueAction::QueueRevision) && e->Queued_0
                == Ok::<bool, ()>(true)),
            published: w.published || action is Publish,
            recorded: w.recorded || (w.action == Some(EnqueueAction::Publish) && e->Recorded_0
                is Ok),
        }
    }
}

/// Whether each event answers what was asked before it.
pub open spec fn queueing_fits(m: Enqueue, events: Seq<EnqueueEvent>) -> bool
    decreases events.len(),
{
    events.len() > 0 ==> queueing_fits(m, events.drop_last()) && enqueue_answers(
        queueing(m, events.drop_last()).action,
        events.last(),
    )
}

proof fn lemma_queueing(m: Enqueue, events: Seq<EnqueueEvent>)
    requires
        queueing_fits(m, events),
    ensures
        ({
            let w = queueing(m, events);
            &&& w.machine == (Enqueue { stage: w.machine.stage, ..m })
            &&& w.folded || w.staged ==> w.allowed
            &&& w.staged && !m.complete && m.previous ==> w.folded
            &&& w.attached ==> w.staged && m.local
            &&& w.queued ==> w.staged && !m.local
            &&& w.recorded ==> w.published
            &&& w.published ==> w.attached || w.queued
            &&& match w.machine.stage {
                EnqueueStage::AwaitAccess => w.action is None && !w.allowed && !w.staged,
                EnqueueStage::AwaitFold => w.action == Some(EnqueueAction::Fold) && w.allowed
                    && !w.folded && !w.staged && !m.complete && m.previous,
                EnqueueStage::AwaitStaging => w.action == Some(EnqueueAction::Stage) && w.allowed
                    && !w.staged && (!m.complete && m.previous ==> w.folded),
                EnqueueStage::AwaitQueue => w.staged && !w.attached && !w.queued && w.action
                    == Some(
                    if m.local {
                        EnqueueAction::AttachToCreate
                    } else {
                        EnqueueAction::QueueRevision
                    },
                ),
                EnqueueStage::AwaitRecord => w.action == Some(EnqueueAction::Publish)
                    && !w.recorded && w.published,
                EnqueueStage::Over => w.action is Some && answers(w.action->0),
            }
        }),
    decreases events.len(),
{
    if events.len() > 0 {
        lemma_queueing(m, events.drop_last());
    }
}

/// A write is answered well just where it may be written, was joined with the write before
/// it if it does not hold the whole file, is on disk, is in the queue, with the file that
/// it creates if that is not made yet, and is recorded.
pub proof fn law_enqueue_tells_the_truth(m: Enqueue, events: Seq<EnqueueEvent>)
    requires
        queueing_fits(m, events),
    ensures
        ({
            let w = queueing(m, events);
            &&& w.action == Some(EnqueueAction::Settle(Ok(()))) ==> {
                &&& w.allowed && w.staged && w.published && w.recorded
                &&& !m.complete && m.previous ==> w.folded
                &&& m.local <==> w.attached
                &&& m.local <==> !w.queued
            }
            &&& w.action == Some(EnqueueAction::Fold) ==> w.allowed && !m.complete && m.previous
            &&& w.action == Some(EnqueueAction::Stage) ==> w.allowed && (!m.complete && m.previous
                ==> w.folded)
            &&& w.published ==> w.attached || w.queued
            &&& w.action is Some && w.action->0 is Settle ==> w.published
        }),
{
    lemma_queueing(m, events);
    if events.len() > 0 {
        lemma_queueing(m, events.drop_last());
    }
}

/// Queueing is over early just where something failed, and the answer says what: bytes that
/// may not be written any more, or cannot be joined, are put aside; bytes that cannot be
/// put on disk stay where they are, and room is made just where the disk is full.
pub proof fn law_enqueue_fails_only_on_a_failure(m: Enqueue, events: Seq<EnqueueEvent>)
    requires
        events.len() > 0,
        queueing_fits(m, events),
    ensures
        ({
            let w = queueing(m, events);
            let e = events.last();
            let a = w.action->0;
            let denied = e is Access && e->Access_0 is Err;
            &&& (answers(a) && a != EnqueueAction::Settle(Ok(()))) <==> {
                ||| denied
                ||| e is Folded && !e->Folded_0
                ||| e is Staged && e->Staged_0 is Err
                ||| e is Queued && e->Queued_0 != Ok::<bool, ()>(true)
                ||| e is Recorded && e->Recorded_0 is Err
            }
            &&& denied && e->Access_0->Err_0 == Errno::Acces ==> a == EnqueueAction::Preserve(
                OrphanReason::AccessBeforeQueue,
                Errno::Acces,
            )
            &&& denied && e->Access_0->Err_0 != Errno::Acces ==> a == EnqueueAction::Refuse(
                e->Access_0->Err_0,
            )
            &&& a is Preserve <==> (denied && e->Access_0->Err_0 == Errno::Acces) || (e is Folded
                && !e->Folded_0)
            &&& a is MarkDurable <==> e is Staged && e->Staged_0 is Err
            &&& a is MarkDurable ==> (a->evict <==> e->Staged_0->Err_0 is DiskFull) && (a->errno
                == Errno::Nospc <==> e->Staged_0->Err_0 is DiskFull)
            &&& e is Recorded && e->Recorded_0 is Ok ==> a == EnqueueAction::Settle(Ok(()))
        }),
{
    lemma_queueing(m, events);
    lemma_queueing(m, events.drop_last());
}

} // verus!

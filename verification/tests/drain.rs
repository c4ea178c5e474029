use pdfs_fuse::access::{Access, WriteAuthority};
use pdfs_fuse::drain::{
    adaptive_debounce, after_drain, defer_for_access, drain_backoff, drain_wait, fault_text,
    pending_op_authorities, recheck_at, record_upload_time, resolve_unknown_authority,
    revision_debounce, run_authorized_drain, run_pending_drain, AccessDeferral, AfterDrain,
    Deferred, DrainDisposition, DrainFailure, DrainOutcome, DrainTurn, OpFault, RemoteAnswer,
    RenameSource, UnknownAuthority, Uploads, DRAIN_ACCESS_DEFER_LIMIT, DRAIN_REVISION_DEBOUNCE,
    DRAIN_REVISION_DEBOUNCE_MAX, UPLOAD_TIME_MEMORY,
};
use pdfs_fuse::landing::{
    conflict_line, create_line, drain_local_node, drain_op, drain_rename, drain_revision,
    drain_trash, land_target, parent_is_gone, rename_line, revision_target,
    trash_name, trash_target, upload_created_file, Call,
    CreateAction, CreateBody, CreateEvent, CreateStage, DrainHandler, LandName, Placement,
    RenameAction, RenameEvent, RenameLine, RenameStage, RevisionAction, RevisionEvent,
    RevisionStage,
};
use pdfs_fuse::node::{Node, NodeKind};
use pdfs_fuse::ops::{create_op, rename_op, revision_op, OpKind, PendingOp};
use pdfs_fuse::revisions::{
    is_own_self_supersede, park_verdict, rebase_handles, rebaseline_pending, release_pending,
    revision_changed, revision_conflict, sweep_parked_create, ActiveWrite, ParkSweep, ParkVerdict,
};
use pdfs_fuse::staging::{Baseline, PendingRevision, StagedWrite};
use pdfs_fuse::uid::{parse_node_uid, NodeUid};
use pdfs_fuse::uidmap::UidMap;
use std::cell::Cell;

fn uid(link: &str) -> NodeUid {
    NodeUid::new("v".to_string(), link.to_string())
}

fn pending(kind: OpKind) -> PendingOp {
    PendingOp {
        id: 0,
        kind,
        uid: "v~node".to_string(),
        parent_uid: Some("v~parent".to_string()),
        name: Some("name".to_string()),
        blob_path: if kind == OpKind::Revision { Some("/staging/blob".to_string()) } else { None },
        meta_json: None,
        created_at: 1,
        attempts: 0,
        last_error: None,
        next_attempt_at: 0,
    }
}

#[test]
fn a_park_expires_only_once_it_is_old_and_nobody_holds_the_file() {
    let expiry = 86_400_000;
    let now = expiry * 10;
    assert_eq!(park_verdict(now - expiry + 1, now, false, expiry), ParkVerdict::Keep);
    assert_eq!(park_verdict(now - expiry, now, true, expiry), ParkVerdict::Keep);
    assert_eq!(park_verdict(now - expiry, now, false, expiry), ParkVerdict::Release);
}

#[test]
fn the_park_sweep_never_drops_on_doubt() {
    assert_eq!(sweep_parked_create("bad", Ok(false), 0, 100, false, 10), ParkSweep::Skip);
    assert_eq!(sweep_parked_create("v~n", Err(()), 0, 100, false, 10), ParkSweep::Skip);
    assert_eq!(sweep_parked_create("v~n", Ok(false), 0, 100, true, 10), ParkSweep::Drop);
    assert_eq!(sweep_parked_create("v~n", Ok(true), 0, 100, true, 10), ParkSweep::Skip);
    assert_eq!(sweep_parked_create("v~n", Ok(true), 0, 100, false, 10), ParkSweep::Release);
}

#[test]
fn drain_authorities_match_each_operation_kind() {
    for kind in [OpKind::Revision, OpKind::Trash] {
        assert_eq!(
            pending_op_authorities(&pending(kind), &RenameSource::Absent).unwrap().len(),
            1
        );
    }
    for kind in [OpKind::Create, OpKind::Mkdir] {
        let authorities = pending_op_authorities(&pending(kind), &RenameSource::Absent).unwrap();
        assert_eq!(authorities.len(), 1);
        assert_eq!(authorities[0].to_text(), "v~parent");
    }
    let authorities =
        pending_op_authorities(&pending(OpKind::Rename), &RenameSource::Absent).unwrap();
    assert_eq!(authorities.len(), 2);
    assert_eq!(authorities[0].to_text(), "v~node");
    assert_eq!(authorities[1].to_text(), "v~parent");
}

#[test]
fn a_row_that_cannot_be_understood_is_named() {
    let fault = |op: &PendingOp, source: RenameSource| {
        pending_op_authorities(op, &source).unwrap_err()
    };
    let mut op = pending(OpKind::Revision);
    op.uid = "bad".to_string();
    assert_eq!(fault(&op, RenameSource::Absent), OpFault::Uid);
    let mut op = pending(OpKind::Create);
    op.parent_uid = None;
    assert_eq!(fault(&op, RenameSource::Absent), OpFault::NoParent);
    op.parent_uid = Some("bad".to_string());
    assert_eq!(fault(&op, RenameSource::Absent), OpFault::Parent);
    let op = pending(OpKind::Rename);
    assert_eq!(fault(&op, RenameSource::Unreadable), OpFault::Description);
    assert_eq!(fault(&op, RenameSource::Original("bad".to_string())), OpFault::OriginalParent);
    assert_eq!(fault(&pending(OpKind::Unknown), RenameSource::Absent), OpFault::Kind);
    assert_eq!(fault_text(OpFault::Uid, "k", "p"), "pending op has an unparseable uid");
    assert_eq!(fault_text(OpFault::NoParent, "k", "p"), "pending op has no parent authority");
    assert_eq!(fault_text(OpFault::Parent, "k", "p"), "pending op has an unparseable parent");
    assert_eq!(fault_text(OpFault::Description, "k", "p"), "p");
    assert_eq!(
        fault_text(OpFault::OriginalParent, "k", "p"),
        "rename op has an unparseable original parent"
    );
    assert_eq!(fault_text(OpFault::Kind, "a\"b", "p"), "unknown pending op kind \"a\\\"b\"");
}

#[test]
fn queued_cross_parent_rename_retains_viewer_source_authority_after_local_move() {
    let source = uid("source");
    let destination = uid("destination");
    let moved = uid("l");
    let mut op = pending(OpKind::Rename);
    op.uid = moved.to_text();
    op.parent_uid = Some(destination.to_text());
    let meta = RenameSource::Original(source.to_text());
    let authorities = pending_op_authorities(&op, &meta).unwrap();
    assert_eq!(authorities.len(), 3);
    assert_eq!(authorities[1], source);

    let applied = Cell::new(false);
    let disposition = run_authorized_drain::<(), _, _>(
        &op,
        &meta,
        |u: &NodeUid| {
            if *u == source {
                WriteAuthority::Denied
            } else {
                WriteAuthority::Writable
            }
        },
        || {
            applied.set(true);
            Ok(())
        },
    )
    .unwrap();
    assert!(matches!(disposition, DrainDisposition::AccessDeferred));
    assert!(!applied.get());
}

#[test]
fn viewer_deferred_drain_never_applies_or_consumes_an_attempt() {
    let mut queued = pending(OpKind::Revision);
    queued.attempts = 2;
    let mut queue = vec![queued];
    let applied = Cell::new(false);
    let disposition = run_authorized_drain::<(), _, _>(
        &queue[0],
        &RenameSource::Absent,
        |_: &NodeUid| WriteAuthority::Denied,
        || {
            applied.set(true);
            Ok(())
        },
    )
    .unwrap();
    assert!(matches!(disposition, DrainDisposition::AccessDeferred));
    assert!(!applied.get(), "no API surrogate may run while read-only");
    // What follows is done to the row.
    match after_drain(DrainOutcome::Deferred, queue[0].attempts, 0) {
        AfterDrain::Defer => queue[0].next_attempt_at = recheck_at(0),
        AfterDrain::Record { attempts, next_attempt_at } => {
            queue[0].attempts = attempts;
            queue[0].next_attempt_at = next_attempt_at;
        }
        AfterDrain::ClearDeferral | AfterDrain::AskRemote => queue.clear(),
    }
    assert_eq!(queue.len(), 1);
    assert_eq!(queue[0].attempts, 2);
    assert_eq!(queue[0].next_attempt_at, 5_000);
}

#[test]
fn an_access_deferral_that_outlives_the_limit_is_reported_as_failing() {
    let now = 1_000_000i64;
    assert!(matches!(
        defer_for_access(Ok(now), AccessDeferral::NotWritable, 0, now),
        Deferred::Quiet { first: true }
    ));
    assert!(matches!(
        defer_for_access(Ok(now), AccessDeferral::NotWritable, 0, now + 5_000),
        Deferred::Quiet { first: false }
    ));
    let past = now + DRAIN_ACCESS_DEFER_LIMIT as i64;
    assert!(matches!(
        defer_for_access(Ok(now), AccessDeferral::NotWritable, 0, past),
        Deferred::Report { first: false, error, next_attempt_at }
            if error == "the share has not been writable for 300s. The staged bytes are kept."
                && next_attempt_at == past + 2_000
    ));
    assert!(matches!(
        defer_for_access(Err(()), AccessDeferral::NotWritable, 0, now),
        Deferred::Unwritten
    ));
    assert_eq!(recheck_at(now), now + 5_000);
}

#[test]
fn clearing_the_window_makes_the_next_deferral_a_fresh_run() {
    assert_eq!(after_drain(DrainOutcome::Applied, 3, 0), AfterDrain::ClearDeferral);
    // With the window cleared, the next deferral is stamped with its own time.
    let later = 2_000_000 + DRAIN_ACCESS_DEFER_LIMIT as i64;
    assert!(matches!(
        defer_for_access(Ok(later), AccessDeferral::NotWritable, 0, later),
        Deferred::Quiet { first: true }
    ));
}

#[test]
fn an_authority_the_tree_does_not_have_is_reported_as_unknown_not_deferred() {
    let op = pending(OpKind::Revision);
    let applied = Cell::new(false);
    let disposition = run_authorized_drain::<(), _, _>(
        &op,
        &RenameSource::Absent,
        |_: &NodeUid| WriteAuthority::Unknown,
        || {
            applied.set(true);
            Ok(())
        },
    )
    .unwrap();
    assert!(matches!(
        disposition,
        DrainDisposition::AuthorityUnknown(u) if u == parse_node_uid(&op.uid).unwrap()
    ));
    assert!(!applied.get(), "an unresolved authority never applies");
}

#[test]
fn a_missing_parent_authority_names_the_parent_not_the_node() {
    let mut op = pending(OpKind::Create);
    let parent = uid("vanished-parent");
    op.parent_uid = Some(parent.to_text());
    let disposition = run_authorized_drain::<(), _, _>(
        &op,
        &RenameSource::Absent,
        |_: &NodeUid| WriteAuthority::Unknown,
        || Ok(()),
    )
    .unwrap();
    assert!(matches!(disposition, DrainDisposition::AuthorityUnknown(u) if u == parent));
}

#[test]
fn owner_and_editor_drain_authorities_apply_normally() {
    for access in [Access::Owner, Access::Editor] {
        let applied = Cell::new(false);
        let disposition = run_authorized_drain::<(), _, _>(
            &pending(OpKind::Revision),
            &RenameSource::Absent,
            |_: &NodeUid| {
                if access.writable() {
                    WriteAuthority::Writable
                } else {
                    WriteAuthority::Denied
                }
            },
            || {
                applied.set(true);
                Ok(())
            },
        )
        .unwrap();
        assert!(matches!(disposition, DrainDisposition::Applied));
        assert!(applied.get());
    }
}

#[test]
fn a_failed_apply_and_a_broken_row_are_told_apart() {
    let failed = run_authorized_drain::<&str, _, _>(
        &pending(OpKind::Revision),
        &RenameSource::Absent,
        |_: &NodeUid| WriteAuthority::Writable,
        || Err("net"),
    );
    assert!(matches!(failed, Err(DrainFailure::Apply("net"))));
    let broken = run_authorized_drain::<&str, _, _>(
        &pending(OpKind::Unknown),
        &RenameSource::Absent,
        |_: &NodeUid| WriteAuthority::Writable,
        || Ok(()),
    );
    assert!(matches!(broken, Err(DrainFailure::Op(OpFault::Kind))));
}

fn file_node(mtime: i64, size: i64, rev: Option<&str>) -> Node {
    Node {
        uid: uid("l"),
        parent_uid: None,
        kind: NodeKind::File {
            media_type: "text/plain".into(),
            total_size_on_storage: size,
            active_revision_id: rev.map(String::from),
            claimed_size: Some(size),
            claimed_modification_time: None,
            content_sha1: None,
        },
        name: "f.txt".into(),
        creation_time: 0,
        modification_time: mtime,
        trashed: false,
        is_shared: false,
        is_shared_publicly: false,
        membership: None,
        album: None,
    }
}

fn baseline(mtime: i64, size: u64, rev: Option<&str>) -> Baseline {
    Baseline { mtime, size, hash: None, revision_id: rev.map(String::from) }
}

#[test]
fn same_revision_id_is_not_a_conflict_despite_mtime_drift() {
    let base = baseline(1_784_897_777, 87_438, Some("rev-A"));
    let remote = file_node(1_784_897_780, 87_438, Some("rev-A"));
    assert_eq!(revision_changed(&base, &remote), None);
}

#[test]
fn a_new_revision_id_is_a_conflict_even_at_the_same_size() {
    let base = baseline(100, 40, Some("rev-A"));
    let remote = file_node(100, 40, Some("rev-B"));
    assert!(revision_changed(&base, &remote).is_some());
    assert_eq!(
        revision_changed(&base, &remote).unwrap(),
        "the remote revision changed under the queued write (based on revision rev-A, remote now at rev-B)"
    );
}

#[test]
fn without_ids_it_falls_back_to_mtime_and_size() {
    let base = baseline(100, 40, None);
    assert_eq!(revision_changed(&base, &file_node(100, 40, None)), None);
    assert!(revision_changed(&base, &file_node(101, 40, None)).is_some());
    assert!(revision_changed(&base, &file_node(100, 41, None)).is_some());
    assert_eq!(
        revision_changed(&base, &file_node(101, 41, None)).unwrap(),
        "the remote revision changed under the queued write (expected 40 bytes at mtime 100, found 41 at 101)"
    );
}

#[test]
fn a_complete_write_over_our_own_sealed_revision_chains_not_forks() {
    assert!(is_own_self_supersede(true, Some("rev-mine"), Some("rev-mine")));
}

#[test]
fn a_move_to_a_revision_we_did_not_seal_still_forks() {
    assert!(!is_own_self_supersede(true, Some("rev-theirs"), Some("rev-mine")));
}

#[test]
fn an_incomplete_blob_never_self_supersedes() {
    assert!(!is_own_self_supersede(false, Some("rev-mine"), Some("rev-mine")));
}

#[test]
fn a_missing_remote_id_never_self_supersedes() {
    assert!(!is_own_self_supersede(true, None, None));
}

fn staged(complete: bool, based_on: Option<Baseline>) -> StagedWrite {
    StagedWrite {
        uid: "v~l".to_string(),
        len: 4,
        base_size: 4,
        base_mtime: 0,
        authored: vec![(0, 4)],
        complete,
        based_on,
    }
}

#[test]
fn a_conflict_is_told_with_its_reason() {
    let base = Some(baseline(1, 4, Some("a")));
    let none: Option<String> = None;
    assert_eq!(revision_conflict(&staged(true, None), &None, &none), None);
    assert_eq!(
        revision_conflict(&staged(true, base.clone()), &None, &none).unwrap(),
        "the file no longer exists remotely"
    );
    let mut gone = file_node(1, 4, Some("a"));
    gone.trashed = true;
    assert_eq!(
        revision_conflict(&staged(true, base.clone()), &Some(gone), &none).unwrap(),
        "the file was trashed remotely"
    );
    let moved = Some(file_node(1, 4, Some("b")));
    let own = Some("b".to_string());
    assert!(revision_conflict(&staged(true, base.clone()), &moved, &none).is_some());
    assert_eq!(revision_conflict(&staged(true, base.clone()), &moved, &own), None);
    assert!(revision_conflict(&staged(false, base), &moved, &own).is_some());
}

#[test]
fn a_queued_write_is_released_and_rebased() {
    let mut queue: UidMap<PendingRevision> = UidMap::new();
    queue.insert(
        uid("l"),
        PendingRevision { path: "/s/1".to_string(), meta: staged(true, None) },
    );
    release_pending(&mut queue, &uid("l"), "/s/0");
    assert!(queue.contains_key(&uid("l")), "a newer write is not retired");
    let sealed = file_node(9, 4, Some("r"));
    assert!(rebaseline_pending(&mut queue, &uid("l"), &sealed));
    let base = queue.get(&uid("l")).unwrap().meta.based_on.clone().unwrap();
    assert_eq!((base.mtime, base.size, base.revision_id.as_deref()), (9, 4, Some("r")));
    assert_eq!(
        revision_conflict(&queue.get(&uid("l")).unwrap().meta, &Some(file_node(9, 4, Some("r"))), &None),
        None
    );
    release_pending(&mut queue, &uid("l"), "/s/./1");
    assert!(!queue.contains_key(&uid("l")));
    assert!(!rebaseline_pending(&mut queue, &uid("l"), &sealed));

    let open = |link: &str| ActiveWrite {
        uid: uid(link),
        base_mtime: 1,
        base_size: 1,
        base_revision_id: None,
    };
    let mut handles = vec![open("l"), open("other")];
    rebase_handles(&mut handles, &uid("l"), &sealed);
    assert_eq!((handles[0].base_mtime, handles[0].base_size), (9, 4));
    assert_eq!(handles[0].base_revision_id.as_deref(), Some("r"));
    assert_eq!(handles[1].base_mtime, 1);
}

#[test]
fn a_node_never_uploaded_keeps_the_fixed_grace_period() {
    assert_eq!(adaptive_debounce(None), DRAIN_REVISION_DEBOUNCE);
}

#[test]
fn a_fast_upload_does_not_shorten_the_grace_period() {
    assert_eq!(adaptive_debounce(Some(50)), DRAIN_REVISION_DEBOUNCE);
}

#[test]
fn a_slow_upload_widens_the_grace_period_to_match() {
    assert_eq!(adaptive_debounce(Some(25_000)), 25_000);
}

#[test]
fn a_pathological_upload_cannot_park_a_node() {
    assert_eq!(adaptive_debounce(Some(6_000_000)), DRAIN_REVISION_DEBOUNCE_MAX);
}

#[test]
fn upload_times_are_remembered_within_a_bound() {
    let mut times: UidMap<(u64, i64)> = UidMap::new();
    for i in 0..UPLOAD_TIME_MEMORY {
        record_upload_time(&mut times, &uid(&format!("n{i}")), 3_000, i as i64 + 10);
    }
    assert_eq!(times.len(), UPLOAD_TIME_MEMORY);
    record_upload_time(&mut times, &uid("n0"), 30_000, 9_999);
    assert_eq!(times.len(), UPLOAD_TIME_MEMORY);
    record_upload_time(&mut times, &uid("new"), 4_000, 10_000);
    assert_eq!(times.len(), UPLOAD_TIME_MEMORY);
    assert_eq!(revision_debounce(&times, &uid("n1")), 2_000, "the oldest makes room");
    assert_eq!(revision_debounce(&times, &uid("n2")), 3_000);
    // Two uids that are written alike share one time.
    let odd = |volume: &str, link: &str| NodeUid::new(volume.to_string(), link.to_string());
    record_upload_time(&mut times, &odd("a~b", "c"), 5_000, 10_001);
    assert_eq!(revision_debounce(&times, &odd("a", "b~c")), 5_000);
    assert_eq!(revision_debounce(&times, &uid("n0")), 30_000);
    assert_eq!(revision_debounce(&times, &uid("new")), 4_000);
    assert_eq!(revision_debounce(&times, &uid("unknown")), 2_000);
}

#[test]
fn failures_back_off_and_stay() {
    assert_eq!(drain_backoff(1), 2_000);
    assert_eq!(drain_backoff(2), 4_000);
    assert_eq!(drain_backoff(6), 64_000);
    assert_eq!(drain_backoff(8), 256_000);
    assert_eq!(drain_backoff(9), 300_000);
    assert_eq!(drain_backoff(u32::MAX), 300_000);
    assert_eq!(
        after_drain(DrainOutcome::Failed, 0, 100),
        AfterDrain::Record { attempts: 1, next_attempt_at: 2_100 }
    );
    assert_eq!(after_drain(DrainOutcome::Unknown, 0, 100), AfterDrain::AskRemote);
}

#[test]
fn a_worker_takes_its_turn() {
    assert_eq!(run_pending_drain(true, Ok(true), true, true), DrainTurn::Stop);
    assert_eq!(run_pending_drain(false, Err(()), true, true), DrainTurn::Wait);
    assert_eq!(run_pending_drain(false, Ok(true), true, true), DrainTurn::Work);
    assert_eq!(
        run_pending_drain(false, Ok(true), false, false),
        DrainTurn::Idle { release: true, chores: false }
    );
    assert_eq!(
        run_pending_drain(false, Ok(false), true, true),
        DrainTurn::Idle { release: false, chores: true }
    );
    assert_eq!(drain_wait(Ok(Some(1_500)), 1_000), 500);
    assert_eq!(drain_wait(Ok(Some(500)), 1_000), 0);
    assert_eq!(drain_wait(Ok(Some(i64::MAX)), i64::MIN), 30_000);
    assert_eq!(drain_wait(Ok(None), 0), 30_000);
    assert_eq!(drain_wait(Err(()), 0), 30_000);
}

#[test]
fn a_lost_authority_is_asked_about() {
    assert!(matches!(
        resolve_unknown_authority(RemoteAnswer::Found, &uid("p"), 0, 0),
        UnknownAuthority::Reintern(AccessDeferral::AuthorityRefetched)
    ));
    assert!(matches!(
        resolve_unknown_authority(RemoteAnswer::Unreachable, &uid("p"), 0, 0),
        UnknownAuthority::Defer(AccessDeferral::RemoteUnreachable)
    ));
    assert!(matches!(
        resolve_unknown_authority(RemoteAnswer::Gone, &uid("p"), 1, 100),
        UnknownAuthority::Report { error, next_attempt_at }
            if next_attempt_at == 4_100 && error == "v~p no longer exists remotely, so this operation has nothing to apply to. The staged bytes are kept."
    ));
    for reason in [
        AccessDeferral::NotWritable,
        AccessDeferral::AuthorityRefetched,
        AccessDeferral::RemoteUnreachable,
    ] {
        assert_ne!(reason.log_reason(), reason.failure_reason());
    }
    assert_eq!(AccessDeferral::NotWritable.log_reason(), "the node is not writable");
}

#[test]
fn a_finished_upload_leaves_a_newer_one_cancellable() {
    let mut uploads = Uploads::new();
    let first = uploads.begin_cancellable_upload(&uid("f"));
    let second = uploads.begin_cancellable_upload(&uid("f"));
    uploads.finish(&uid("f"), first);
    uploads.cancel_upload(&uid("f"));
    assert!(uploads.cancelled(second));
    assert!(!uploads.cancelled(first));
    uploads.finish(&uid("f"), second);
    uploads.cancel_upload(&uid("f"));
    assert!(!uploads.cancelled(second));
}

#[test]
fn a_taken_name_lands_under_a_conflict_name() {
    let (stage, action) = drain_rename(
        RenameStage::AwaitFetch,
        RenameEvent::Fetched(Placement::Elsewhere { same_name: false }),
    );
    assert_eq!(action, RenameAction::Move { to: LandName::Wanted });
    let (stage, action) = drain_rename(stage, RenameEvent::Called(Call::Taken));
    assert_eq!(action, RenameAction::Move { to: LandName::Conflict });
    let (_, action) = drain_rename(stage, RenameEvent::Called(Call::Done));
    assert_eq!(
        action,
        RenameAction::Land { name: LandName::Conflict, moved: true, renamed: false, stranded: false }
    );
    assert_eq!(rename_line(RenameLine::Moved, "x"), "destination already had that name; moved as x");
    assert_eq!(rename_line(RenameLine::Renamed, "x"), "name was taken remotely; renamed to x");
}

#[test]
fn a_rename_into_a_folder_that_is_gone_stays_in_place() {
    let (stage, _) = drain_rename(
        RenameStage::AwaitFetch,
        RenameEvent::Fetched(Placement::Elsewhere { same_name: false }),
    );
    let (stage, action) = drain_rename(stage, RenameEvent::Called(Call::Gone));
    assert_eq!(action, RenameAction::Rename { to: LandName::Wanted });
    let (_, action) = drain_rename(stage, RenameEvent::Called(Call::Gone));
    assert_eq!(
        action,
        RenameAction::Land { name: LandName::Current, moved: false, renamed: false, stranded: true }
    );
    let (_, action) =
        drain_rename(RenameStage::AwaitFetch, RenameEvent::Fetched(Placement::Missing));
    assert_eq!(action, RenameAction::Drop);
    let (stage, _) = drain_rename(
        RenameStage::AwaitFetch,
        RenameEvent::Fetched(Placement::Here { same_name: false }),
    );
    assert_eq!(drain_rename(stage, RenameEvent::Called(Call::Failed)).1, RenameAction::Fail);
}

#[test]
fn a_creation_is_rehomed_only_when_its_folder_is_gone() {
    let (stage, action) =
        drain_local_node(CreateStage::AwaitCreate, CreateEvent::Called(Call::Failed));
    assert_eq!(action, CreateAction::AskParent);
    assert_eq!(
        drain_local_node(stage, CreateEvent::Parent { gone: false, root: true }).1,
        CreateAction::Fail
    );
    let (stage, action) = drain_local_node(stage, CreateEvent::Parent { gone: true, root: true });
    assert_eq!(action, CreateAction::Create { name: LandName::Wanted, in_root: true });
    let (stage, _) = drain_local_node(stage, CreateEvent::Called(Call::Taken));
    let (_, action) = drain_local_node(stage, CreateEvent::Called(Call::Done));
    assert_eq!(
        action,
        CreateAction::Land { name: LandName::Conflict, taken: false, rehomed: true }
    );
    assert_eq!(
        create_line(true, "a"),
        "its folder was trashed remotely; created in the root as a"
    );
    assert_eq!(create_line(false, "a"), "name was taken remotely; created as a");
    assert!(parent_is_gone(Ok(None)) && parent_is_gone(Ok(Some(true))));
    assert!(!parent_is_gone(Err(())) && !parent_is_gone(Ok(Some(false))));
    assert_eq!(upload_created_file(OpKind::Mkdir, false, 0, false), CreateBody::Folder);
    assert_eq!(upload_created_file(OpKind::Create, false, 0, false), CreateBody::Empty);
    assert_eq!(upload_created_file(OpKind::Create, true, 3, false), CreateBody::Incomplete);
    assert_eq!(upload_created_file(OpKind::Create, true, 3, true), CreateBody::Blob { len: 3 });
}

#[test]
fn an_upload_lands_forks_or_yields() {
    let start = RevisionStage::AwaitCheck { complete: false };
    let (stage, action) = drain_revision(start, RevisionEvent::Checked { conflict: false });
    assert_eq!(action, RevisionAction::Fill);
    let (stage, action) = drain_revision(stage, RevisionEvent::Filled { ok: true });
    assert_eq!(action, RevisionAction::Send);
    assert_eq!(
        drain_revision(stage, RevisionEvent::Sent { ok: true, stopped: false }).1,
        RevisionAction::Land
    );
    assert_eq!(
        drain_revision(stage, RevisionEvent::Sent { ok: false, stopped: true }).1,
        RevisionAction::Superseded
    );
    assert_eq!(
        drain_revision(stage, RevisionEvent::Sent { ok: false, stopped: false }).1,
        RevisionAction::Fail
    );
    let (stage, action) = drain_revision(start, RevisionEvent::Checked { conflict: true });
    assert_eq!(action, RevisionAction::Place);
    assert_eq!(
        drain_revision(stage, RevisionEvent::Placed { found: false }).1,
        RevisionAction::Abandon
    );
    let (stage, _) = drain_revision(stage, RevisionEvent::Placed { found: true });
    assert_eq!(
        drain_revision(stage, RevisionEvent::Filled { ok: false }).1,
        RevisionAction::Abandon
    );
    assert_eq!(
        drain_revision(stage, RevisionEvent::Unopened).1,
        RevisionAction::Fail,
        "a blob that cannot be opened is tried again"
    );
    let (stage, _) = drain_revision(stage, RevisionEvent::Filled { ok: true });
    assert_eq!(drain_revision(stage, RevisionEvent::Unopened).1, RevisionAction::Fail);
    assert_eq!(
        drain_revision(stage, RevisionEvent::Sent { ok: true, stopped: false }).1,
        RevisionAction::LandCopy
    );
    assert_eq!(drain_revision(start, RevisionEvent::CheckFailed).1, RevisionAction::Fail);
    assert_eq!(conflict_line("r", true, "x"), "r; local changes uploaded as x");
    assert_eq!(conflict_line("r", false, "/s"), "r; local changes kept at /s");
}

#[test]
fn a_row_names_what_it_is_to_do() {
    assert_eq!(drain_op(OpKind::Mkdir), DrainHandler::LocalNode);
    assert_eq!(drain_op(OpKind::Trash), DrainHandler::Trash);
    assert_eq!(drain_op(OpKind::Unknown), DrainHandler::Unknown);
    assert!(drain_trash(Call::Gone) && drain_trash(Call::Done));
    assert!(!drain_trash(Call::Failed) && !drain_trash(Call::Taken));
    let mut op = pending(OpKind::Trash);
    assert_eq!(trash_name(&op), "name");
    op.name = None;
    assert_eq!(trash_name(&op), "v~node");
    assert_eq!(trash_target(&op).unwrap(), NodeUid::new("v".to_string(), "node".to_string()));
    op.uid = "x".to_string();
    assert_eq!(trash_target(&op).unwrap_err(), "trash op has an unparseable uid");
    let mut op = pending(OpKind::Revision);
    op.blob_path = None;
    assert_eq!(
        revision_target(&op, &Ok(staged(true, None))).unwrap_err(),
        "pending op has no staged blob"
    );
    op.blob_path = Some("/staging/1".to_string());
    assert_eq!(revision_target(&op, &Err("bad json".to_string())).unwrap_err(), "bad json");
    let mut write = staged(true, None);
    write.uid = "v~node".to_string();
    assert_eq!(
        revision_target(&op, &Ok(write)).unwrap(),
        ("/staging/1".to_string(), NodeUid::new("v".to_string(), "node".to_string()))
    );
    let mut write = staged(true, None);
    write.uid = "x".to_string();
    assert_eq!(
        revision_target(&op, &Ok(write)).unwrap_err(),
        "staged write has an unparseable uid"
    );
    let target = land_target(&pending(OpKind::Rename), true).unwrap();
    assert_eq!((target.name.as_str(), target.parent.link_id.as_str()), ("name", "parent"));
    let mut op = pending(OpKind::Rename);
    op.parent_uid = Some("local~1-1".to_string());
    assert_eq!(
        land_target(&op, true).unwrap_err(),
        "destination local~1-1 has not been created yet"
    );
    assert_eq!(land_target(&op, false).unwrap_err(), "parent local~1-1 has not been created yet");
    op.parent_uid = Some("x".to_string());
    assert_eq!(land_target(&op, false).unwrap_err(), "create op has an unparseable parent");
    op.parent_uid = None;
    assert_eq!(land_target(&op, true).unwrap_err(), "rename op has no parent");
    op.uid = "x".to_string();
    assert_eq!(land_target(&op, true).unwrap_err(), "rename op has an unparseable uid");
    let mut op = pending(OpKind::Create);
    op.name = None;
    assert_eq!(land_target(&op, false).unwrap_err(), "create op has no name");
}

#[test]
fn fresh_rows_hold_what_they_were_made_with() {
    let r = revision_op(&uid("f"), "/b".to_string(), "{}".to_string(), 5, 7);
    assert_eq!((r.kind, r.uid.as_str(), r.next_attempt_at), (OpKind::Revision, "v~f", 7));
    assert_eq!((r.blob_path.as_deref(), r.meta_json.as_deref()), (Some("/b"), Some("{}")));
    let c = create_op(&uid("f"), &uid("p"), "n".to_string(), false, true, 99, 5);
    assert_eq!((c.kind, c.parent_uid.as_deref(), c.next_attempt_at), (OpKind::Create, Some("v~p"), 99));
    let c = create_op(&uid("f"), &uid("p"), "n".to_string(), true, false, 99, 5);
    assert_eq!((c.kind, c.next_attempt_at), (OpKind::Mkdir, 0));
    let m = rename_op(&uid("f"), &uid("p"), "n".to_string(), "{}".to_string(), 5);
    assert_eq!((m.kind, m.name.as_deref(), m.created_at), (OpKind::Rename, Some("n"), 5));
}

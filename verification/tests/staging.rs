use pdfs_fuse::enqueue::{
    enqueue_staged_write, reason_text, EnqueueAction, EnqueueEvent, OrphanReason, StoreFault,
};
use pdfs_fuse::error::Errno;
use pdfs_fuse::intervals::Intervals;
use pdfs_fuse::node::{apply_pending_sizes, node_size, Node, NodeKind};
use pdfs_fuse::ops::OpKind;
use pdfs_fuse::recovery::{
    count_stranded, drop_unrecoverable_op, hydrate_pending, reconcile_staging,
    recover_fsynced_write, retires_recovered, settle_orphan, LoadedOp, OrphanVerdict,
    RecoveredVerdict, StagingTally,
};
use pdfs_fuse::staging::{
    merge_over_pending, orphaned_detail, queue_revision, queue_truncate, recovery_meta,
    remote_baseline, seal_write, shown_name, stamp_pending_sizes, truncate_base, Baseline,
    PendingRevision, Release, StagedWrite, TruncateBase, WriteHandle,
};
use pdfs_fuse::state::{State, ROOT_INO};
use pdfs_fuse::uid::NodeUid;
use pdfs_fuse::uidmap::{UidMap, UidSet};

fn uid(link: &str) -> NodeUid {
    NodeUid::new("vol".to_string(), link.to_string())
}

fn staged(len: u64, base_size: u64, authored: &[(u64, u64)]) -> StagedWrite {
    StagedWrite {
        uid: "vol~link".into(),
        len,
        base_size,
        base_mtime: 100,
        complete: authored == [(0, len)],
        authored: authored.to_vec(),
        based_on: Some(Baseline {
            mtime: 100,
            size: base_size,
            hash: None,
            revision_id: Some("r1".into()),
        }),
    }
}

/// `len` bytes with `fill` at every offset in `ranges`.
fn blob(len: u64, ranges: &[(u64, u64)], fill: u8) -> Vec<u8> {
    let mut bytes = vec![0u8; len as usize];
    for &(s, e) in ranges {
        bytes[s as usize..e as usize].fill(fill);
    }
    bytes
}

/// Copy the ranges from one blob into another.
fn copy(copies: &[(u64, u64)], from: &[u8], to: &mut [u8]) {
    for &(s, e) in copies {
        to[s as usize..e as usize].copy_from_slice(&from[s as usize..e as usize]);
    }
}

fn previous(meta: StagedWrite) -> PendingRevision {
    PendingRevision { path: "/staging/old".to_string(), meta }
}

#[test]
fn the_superseding_write_inherits_the_earlier_ones_bytes() {
    let old = blob(64, &[(0, 16)], 0xAA);
    let previous = previous(staged(64, 64, &[(0, 16)]));
    let mut merged = blob(64, &[(32, 48)], 0xBB);
    let mut meta = staged(64, 64, &[(32, 48)]);

    let copies = merge_over_pending(&mut meta, &previous);
    copy(&copies, &old, &mut merged);

    assert_eq!(meta.authored, vec![(0, 16), (32, 48)]);
    assert!(
        !meta.complete,
        "the untouched middle still comes from the base"
    );
    assert!(
        merged[0..16].iter().all(|&b| b == 0xAA),
        "earlier edit kept"
    );
    assert!(merged[32..48].iter().all(|&b| b == 0xBB), "newer edit kept");
}

#[test]
fn the_newer_write_wins_the_ranges_it_authored() {
    let old = blob(32, &[(0, 32)], 0xAA);
    let previous = previous(staged(32, 32, &[(0, 32)]));
    let mut merged = blob(32, &[(8, 16)], 0xBB);
    let mut meta = staged(32, 32, &[(8, 16)]);

    let copies = merge_over_pending(&mut meta, &previous);
    copy(&copies, &old, &mut merged);

    assert_eq!(meta.authored, vec![(0, 32)]);
    assert!(meta.complete, "between them they cover the file");
    assert!(
        merged[8..16].iter().all(|&b| b == 0xBB),
        "newer edit survives"
    );
    assert!(merged[16..32].iter().all(|&b| b == 0xAA));
}

#[test]
fn the_baseline_is_inherited_from_the_write_being_superseded() {
    let mut earlier = staged(64, 64, &[(0, 16)]);
    earlier.base_mtime = 42;
    earlier.base_size = 50;
    earlier.based_on = Some(Baseline {
        mtime: 42,
        size: 50,
        hash: None,
        revision_id: Some("original".into()),
    });
    let previous = previous(earlier);
    // Opened over the staged blob, so this write thinks its base is 64/100.
    let mut meta = staged(64, 64, &[(32, 48)]);

    merge_over_pending(&mut meta, &previous);

    assert_eq!(meta.base_mtime, 42);
    assert_eq!(meta.base_size, 50);
    assert_eq!(
        meta.based_on.unwrap().revision_id.as_deref(),
        Some("original")
    );
}

#[test]
fn a_truncating_write_does_not_inherit_past_its_own_length() {
    let previous = previous(staged(64, 64, &[(0, 64)]));
    let mut meta = staged(16, 64, &[(8, 16)]);

    let copies = merge_over_pending(&mut meta, &previous);

    assert_eq!(copies, vec![(0, 8)]);
    assert_eq!(meta.authored, vec![(0, 16)]);
    assert!(meta.complete);
    assert_eq!(meta.len, 16);
}

fn segs(iv: &Intervals, start: u64, end: u64) -> Vec<(u64, u64, bool)> {
    iv.segments(start, end)
}

#[test]
fn append_merges_into_one_run() {
    let mut iv = Intervals::default();
    iv.add(0, 10);
    iv.add(10, 20);
    iv.add(20, 25);
    assert_eq!(segs(&iv, 0, 25), vec![(0, 25, true)]);
}

#[test]
fn partial_overwrite_leaves_base_gap() {
    let mut iv = Intervals::default();
    iv.add(0, 4);
    iv.add(8, 12);
    assert_eq!(
        segs(&iv, 0, 12),
        vec![(0, 4, true), (4, 8, false), (8, 12, true)]
    );
}

#[test]
fn overlapping_writes_coalesce() {
    let mut iv = Intervals::default();
    iv.add(0, 10);
    iv.add(5, 15);
    iv.add(14, 20);
    assert_eq!(segs(&iv, 0, 20), vec![(0, 20, true)]);
}

#[test]
fn segments_clamp_to_request_window() {
    let mut iv = Intervals::default();
    iv.add(0, 100);
    assert_eq!(segs(&iv, 20, 50), vec![(20, 50, true)]);
    let empty = Intervals::default();
    assert_eq!(segs(&empty, 0, 8), vec![(0, 8, false)]);
}

#[test]
fn truncate_shrink_drops_tail() {
    let mut iv = Intervals::default();
    iv.add(0, 100);
    iv.clip(40);
    assert_eq!(segs(&iv, 0, 40), vec![(0, 40, true)]);
    let mut iv2 = Intervals::default();
    iv2.add(0, 10);
    iv2.add(50, 60);
    iv2.clip(40);
    assert_eq!(segs(&iv2, 0, 40), vec![(0, 10, true), (10, 40, false)]);
}

#[test]
fn truncate_extend_authors_zero_tail() {
    let mut iv = Intervals::default();
    iv.add(0, 10); // base content authored over
    let old_len = 10u64;
    let new_len = 30u64;
    iv.add(old_len, new_len);
    assert_eq!(segs(&iv, 0, 30), vec![(0, 30, true)]);
}

#[test]
fn the_order_of_writes_does_not_matter_to_the_set() {
    let mut a = Intervals::default();
    a.add(50, 60);
    a.add(0, 10);
    a.add(10, 20);
    let mut b = Intervals::default();
    b.add(10, 20);
    b.add(0, 10);
    b.add(50, 60);
    b.add(50, 60);
    assert_eq!(a, b);
    assert_eq!(a.runs, vec![(0, 20), (50, 60)]);
    a.add(7, 7);
    assert_eq!(a, b.clone());
    assert!(segs(&a, 9, 9).is_empty());
}

fn pending_revision(len: u64, complete: bool) -> PendingRevision {
    PendingRevision {
        path: "/staging/pending".to_string(),
        meta: StagedWrite {
            uid: "vol~file".into(),
            len,
            base_size: 3,
            base_mtime: 42,
            authored: if complete { vec![(0, len)] } else { vec![(3, len)] },
            complete,
            based_on: Some(Baseline { mtime: 42, size: 3, hash: None, revision_id: None }),
        },
    }
}

fn base(size: u64) -> TruncateBase {
    TruncateBase { uid: uid("file"), mtime: 9, size, revision_id: Some("r".to_string()) }
}

#[test]
fn complete_pending_revision_can_seed_immediate_shrink() {
    let mut queue = UidMap::new();
    queue.insert(uid("file"), pending_revision(10, true));
    let plan = queue_truncate(&base(10), Ok(()), 4, &queue).unwrap().unwrap();
    assert!(plan.copy_pending);
    let mut bytes = b"0123456789".to_vec();
    bytes.resize(plan.meta.len as usize, 0);
    assert_eq!(bytes, b"0123");
    assert!(plan.meta.complete);
    assert_eq!(plan.meta.authored, vec![(0, 4)]);
    assert_eq!((plan.meta.base_size, plan.meta.base_mtime), (10, 42));
}

#[test]
fn complete_pending_revision_can_seed_immediate_growth_and_zero() {
    let mut queue = UidMap::new();
    queue.insert(uid("file"), pending_revision(10, true));
    let plan = queue_truncate(&base(10), Ok(()), 14, &queue).unwrap().unwrap();
    let mut bytes = b"0123456789".to_vec();
    bytes.resize(plan.meta.len as usize, 0);
    assert_eq!(bytes, b"0123456789\0\0\0\0");
    let plan = queue_truncate(&base(10), Ok(()), 0, &queue).unwrap().unwrap();
    assert_eq!(plan.meta.len, 0);
    assert!(plan.meta.complete && plan.meta.authored.is_empty());
}

#[test]
fn incomplete_pending_revision_is_not_a_safe_truncate_base() {
    let pending = pending_revision(11, false);
    assert!(!pending.meta.complete);
    assert_ne!(pending.meta.authored, vec![(0, pending.meta.len)]);
    let mut queue = UidMap::new();
    queue.insert(uid("file"), pending);
    assert_eq!(queue_truncate(&base(11), Ok(()), 4, &queue).unwrap_err(), Errno::Io);
}

#[test]
fn a_truncate_authors_only_what_it_defines() {
    let none: UidMap<PendingRevision> = UidMap::new();
    let plan = queue_truncate(&base(10), Ok(()), 30, &none).unwrap().unwrap();
    assert_eq!((plan.meta.authored.clone(), plan.meta.complete), (vec![(10, 30)], false));
    assert!(!plan.copy_pending);
    assert_eq!(plan.meta.based_on.unwrap().revision_id.as_deref(), Some("r"));
    let plan = queue_truncate(&base(10), Ok(()), 3, &none).unwrap().unwrap();
    assert_eq!((plan.meta.authored, plan.meta.complete), (vec![], false));
    let plan = queue_truncate(&base(0), Ok(()), 3, &none).unwrap().unwrap();
    assert_eq!((plan.meta.authored, plan.meta.complete), (vec![(0, 3)], true));
    let plan = queue_truncate(&base(10), Ok(()), 0, &none).unwrap().unwrap();
    assert_eq!((plan.meta.authored, plan.meta.complete), (vec![], true));
    assert!(queue_truncate(&base(10), Ok(()), 10, &none).unwrap().is_none());
    assert_eq!(
        queue_truncate(&base(10), Err(Errno::Acces), 10, &none).unwrap_err(),
        Errno::Acces
    );
}

fn file(link: &str, claimed: i64) -> Node {
    Node {
        uid: uid(link),
        parent_uid: Some(uid("parent")),
        kind: NodeKind::File {
            media_type: "text/plain".into(),
            total_size_on_storage: 0,
            active_revision_id: None,
            content_sha1: None,
            claimed_size: Some(claimed),
            claimed_modification_time: None,
        },
        name: link.into(),
        creation_time: 100,
        modification_time: 100,
        trashed: false,
        is_shared: false,
        is_shared_publicly: false,
        membership: None,
        album: None,
    }
}

fn folder(link: &str) -> Node {
    Node { kind: NodeKind::Folder, ..file(link, 0) }
}

#[test]
fn a_truncate_is_about_a_file() {
    let mut st = State::new(folder("root"), UidMap::new());
    let ino = st.intern_mem(ROOT_INO, file("f", 12));
    let b = truncate_base(&st, ino).unwrap();
    assert_eq!((b.size, b.mtime, b.uid), (12, 100, uid("f")));
    assert_eq!(truncate_base(&st, ROOT_INO).unwrap_err(), Errno::Isdir);
    assert_eq!(truncate_base(&st, 99).unwrap_err(), Errno::Noent);
    assert_eq!(shown_name(&st, ino), "f");
    assert_eq!(shown_name(&st, 99), "");
    assert_eq!(
        orphaned_detail("why", "/s/1", true),
        "write not queued (why); changes kept at /s/1"
    );
    assert_eq!(
        orphaned_detail("why", "/s/1", false),
        "write not queued (why); changes retained at /s/1"
    );
}

fn handle(u: NodeUid, dirty: bool, base_size: u64) -> WriteHandle {
    let mut written = Intervals::default();
    written.add(0, 4);
    WriteHandle {
        uid: u,
        ino: 5,
        path: "/scratch/1".to_string(),
        len: 10,
        base_size,
        base_mtime: 7,
        base_revision_id: None,
        written,
        dirty,
    }
}

#[test]
fn a_released_handle_is_staged_kept_or_dropped() {
    let local = || NodeUid::new("local".to_string(), "1-1".to_string());
    assert_eq!(queue_revision(&handle(uid("f"), false, 3), Err(Errno::Acces), Ok(true)), Release::Untouched);
    assert_eq!(
        queue_revision(&handle(uid("f"), true, 3), Err(Errno::Acces), Ok(true)),
        Release::Preserve(Errno::Acces)
    );
    assert_eq!(
        queue_revision(&handle(uid("f"), true, 3), Err(Errno::Io), Ok(true)),
        Release::Refuse(Errno::Io)
    );
    assert_eq!(queue_revision(&handle(local(), true, 3), Ok(()), Ok(false)), Release::Forgotten);
    assert_eq!(
        queue_revision(&handle(local(), true, 3), Ok(()), Err(())),
        Release::Stage { fill: None }
    );
    assert_eq!(
        queue_revision(&handle(local(), true, 0), Ok(()), Ok(true)),
        Release::Stage { fill: Some(0) }
    );
    assert_eq!(
        queue_revision(&handle(uid("f"), true, 3), Ok(()), Ok(false)),
        Release::Stage { fill: Some(3) }
    );
}

#[test]
fn a_sealed_write_describes_its_blob() {
    let none: UidMap<PendingRevision> = UidMap::new();
    let h = handle(uid("f"), true, 3);
    let meta = recovery_meta(&h, &none);
    assert_eq!((meta.uid.as_str(), meta.len, meta.complete), ("vol~f", 10, false));
    assert_eq!(meta.authored, vec![(0, 4)]);
    let based_on = meta.based_on.unwrap();
    assert_eq!((based_on.mtime, based_on.size), (7, 3));
    let mut all = Intervals::default();
    all.add(0, 40);
    let meta = seal_write(&h, &all, &none);
    assert!(meta.complete);
    assert_eq!(meta.authored, vec![(0, 10)]);
    let mut queue = UidMap::new();
    queue.insert(uid("f"), pending_revision(10, true));
    assert_eq!(remote_baseline(&uid("f"), 1, 2, &None, &queue).unwrap().mtime, 42);
    assert!(remote_baseline(&NodeUid::new("local".into(), "1".into()), 1, 2, &None, &none).is_none());
}

#[test]
fn a_staged_write_walks_into_the_queue() {
    let mut job = enqueue_staged_write(false, false, true);
    assert_eq!(job.step(EnqueueEvent::Access(Ok(()))), EnqueueAction::Fold);
    assert_eq!(job.step(EnqueueEvent::Folded(true)), EnqueueAction::Stage);
    assert_eq!(job.step(EnqueueEvent::Staged(Ok(()))), EnqueueAction::QueueRevision);
    assert_eq!(job.step(EnqueueEvent::Queued(Ok(true))), EnqueueAction::Publish);
    assert_eq!(job.step(EnqueueEvent::Recorded(Ok(()))), EnqueueAction::Settle(Ok(())));
    let mut job = enqueue_staged_write(true, true, true);
    assert_eq!(job.step(EnqueueEvent::Access(Ok(()))), EnqueueAction::Stage);
    assert_eq!(job.step(EnqueueEvent::Staged(Ok(()))), EnqueueAction::AttachToCreate);
    assert_eq!(job.step(EnqueueEvent::Queued(Ok(false))), EnqueueAction::Refuse(Errno::Io));
}

#[test]
fn a_write_that_cannot_be_queued_keeps_its_bytes() {
    let mut job = enqueue_staged_write(false, false, true);
    assert_eq!(
        job.step(EnqueueEvent::Access(Err(Errno::Acces))),
        EnqueueAction::Preserve(OrphanReason::AccessBeforeQueue, Errno::Acces)
    );
    let mut job = enqueue_staged_write(false, false, true);
    job.step(EnqueueEvent::Access(Ok(())));
    assert_eq!(
        job.step(EnqueueEvent::Folded(false)),
        EnqueueAction::Preserve(OrphanReason::Overlap, Errno::Io)
    );
    let mut job = enqueue_staged_write(false, true, false);
    job.step(EnqueueEvent::Access(Ok(())));
    assert_eq!(
        job.step(EnqueueEvent::Staged(Err(StoreFault::DiskFull))),
        EnqueueAction::MarkDurable { evict: true, errno: Errno::Nospc }
    );
    let mut job = enqueue_staged_write(false, true, false);
    job.step(EnqueueEvent::Access(Ok(())));
    job.step(EnqueueEvent::Staged(Ok(())));
    job.step(EnqueueEvent::Queued(Ok(true)));
    assert_eq!(
        job.step(EnqueueEvent::Recorded(Err(StoreFault::Other))),
        EnqueueAction::Settle(Err(Errno::Io))
    );
    assert_eq!(
        reason_text(OrphanReason::AccessBeforeRelease),
        "access changed before the write could be queued"
    );
}

fn loaded(id: i64, uid: &str, kind: OpKind, blob: bool, meta: bool, exists: bool) -> LoadedOp {
    LoadedOp {
        id,
        kind,
        uid: uid.to_string(),
        blob_path: if blob { Some(format!("/s/{id}")) } else { None },
        meta: if meta { Some(staged(4, 4, &[(0, 4)])) } else { None },
        blob_exists: exists,
    }
}

#[test]
fn the_queue_is_loaded_back() {
    let mut pending = UidMap::new();
    let mut hidden = UidSet::new();
    let r = hydrate_pending(
        vec![
            loaded(1, "bad", OpKind::Revision, true, true, true),
            loaded(2, "vol~t", OpKind::Trash, false, false, false),
            loaded(3, "vol~r", OpKind::Revision, true, true, true),
            loaded(4, "vol~gone", OpKind::Revision, true, true, false),
            loaded(5, "local~1-1", OpKind::Create, true, false, true),
            loaded(6, "vol~none", OpKind::Revision, false, true, false),
        ],
        &mut pending,
        &mut hidden,
    );
    assert_eq!(r.restored, 2);
    assert_eq!(r.dropped, vec![(1, false), (4, false), (5, true), (6, false)]);
    assert!(hidden.contains(&uid("t")));
    assert_eq!(pending.len(), 1);
    assert_eq!(pending.get(&uid("r")).unwrap().path, "/s/3");
}

#[test]
fn orphaned_blobs_are_queued_or_kept() {
    let mut pending: UidMap<PendingRevision> = UidMap::new();
    let claimed = vec!["/s/1".to_string()];
    let meta = Some(staged(4, 4, &[(0, 4)]));
    assert_eq!(reconcile_staging("/s/1", &meta, &claimed, &pending).0, OrphanVerdict::Claimed);
    assert_eq!(
        reconcile_staging("/s/2", &None, &claimed, &pending).0,
        OrphanVerdict::Unaddressable
    );
    let (verdict, node) = reconcile_staging("/s/2", &meta, &claimed, &pending);
    assert_eq!(verdict, OrphanVerdict::Queue);
    let mut tally = StagingTally { queued: 0, stranded: 0 };
    settle_orphan(
        &mut tally,
        &mut pending,
        node.unwrap(),
        "/s/2".to_string(),
        staged(4, 4, &[(0, 4)]),
        true,
    );
    let (verdict, node) = reconcile_staging("/s/3", &meta, &claimed, &pending);
    assert_eq!(verdict, OrphanVerdict::Superseded);
    assert!(node.is_none());
    count_stranded(&mut tally, verdict);
    count_stranded(&mut tally, OrphanVerdict::Claimed);
    assert_eq!(tally, StagingTally { queued: 1, stranded: 1 });
    let mut local = staged(4, 4, &[(0, 4)]);
    local.uid = "local~1-1".to_string();
    assert_eq!(
        reconcile_staging("/s/4", &Some(local), &claimed, &pending).0,
        OrphanVerdict::Unaddressable
    );
}

#[test]
fn a_recovered_write_waits_for_an_undrained_one() {
    let mut pending: UidMap<PendingRevision> = UidMap::new();
    pending.insert(uid("link"), previous(staged(4, 4, &[(0, 4)])));
    let partial = staged(8, 8, &[(0, 4)]);
    assert!(matches!(recover_fsynced_write(&partial, &pending), RecoveredVerdict::Wait));
    let whole = staged(8, 8, &[(0, 8)]);
    assert!(matches!(
        recover_fsynced_write(&whole, &pending),
        RecoveredVerdict::Enqueue(u) if u == uid("link")
    ));
    let mut bad = staged(8, 8, &[(0, 8)]);
    bad.uid = "x".to_string();
    assert!(matches!(recover_fsynced_write(&bad, &pending), RecoveredVerdict::Unaddressed));
    assert!(retires_recovered(true, true) && retires_recovered(false, false));
    assert!(!retires_recovered(false, true));
    assert!(drop_unrecoverable_op(&NodeUid::new("local".into(), "1".into())));
    assert!(!drop_unrecoverable_op(&uid("x")));
}

#[test]
fn a_queued_write_keeps_its_optimistic_size_through_a_re_enumeration() {
    let mut nodes = vec![file("queued", 0), file("settled", 4096)];
    let mut sizes = UidMap::new();
    sizes.insert(uid("queued"), 3u64);

    apply_pending_sizes(&mut nodes, &sizes);

    assert_eq!(
        node_size(&nodes[0]),
        3,
        "the remote's pre-write size must not win over the queued write's"
    );
    assert_eq!(
        node_size(&nodes[1]),
        4096,
        "a file with nothing queued keeps the size the server reported"
    );
}

#[test]
fn folders_are_left_alone() {
    let mut nodes = vec![folder("dir")];
    let mut sizes = UidMap::new();
    sizes.insert(uid("dir"), 999u64);
    apply_pending_sizes(&mut nodes, &sizes);
    assert!(matches!(nodes[0].kind, NodeKind::Folder));
    assert_eq!(node_size(&nodes[0]), 0);
}

#[test]
fn an_empty_pending_map_changes_nothing() {
    let mut nodes = vec![file("a", 10), file("b", 20)];
    apply_pending_sizes(&mut nodes, &UidMap::new());
    assert_eq!(node_size(&nodes[0]), 10);
    assert_eq!(node_size(&nodes[1]), 20);
}

#[test]
fn queued_writes_stamp_their_sizes() {
    let mut queue = UidMap::new();
    queue.insert(uid("a"), pending_revision(77, true));
    let mut nodes = vec![file("a", 10), file("b", 20)];
    stamp_pending_sizes(&mut nodes, &queue);
    assert_eq!((node_size(&nodes[0]), node_size(&nodes[1])), (77, 20));
}

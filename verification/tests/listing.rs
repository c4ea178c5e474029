use pdfs_fuse::access::Access;
use pdfs_fuse::adoption::{adopt_real_uid, refresh_root};
use pdfs_fuse::devices::adoption_cleared;
use pdfs_fuse::error::{
    fetch_node, fetch_node_remote, is_already_exists, ApiCode, Errno, ErrorKind, Fetched,
};
use pdfs_fuse::events::{
    acknowledge_applied_event, event_write, flush_dirty_parents, seed_step, sync_start,
    DirtyParents, DriveEvent, SeedStep, StoreWrite, SyncStart,
};
use pdfs_fuse::landing::{copy_place, land_name, placement, LandName, Placement};
use pdfs_fuse::listing::{
    foreign_children, prepare_virtual_root, publish_foreign_listing, publish_listing,
    publish_persisted_shares, publish_refreshed_shares, reject_refreshed_shares,
    resident_root_listing_snapshot, resolve_path, source_parent_uid, WalkStep,
};
use pdfs_fuse::modes::removed_row;
use pdfs_fuse::names::name_is_usable;
use pdfs_fuse::namespace::{discard_queued_ops, move_to};
use pdfs_fuse::node::{Node, NodeKind};
use pdfs_fuse::notify::{KernelNotice, NotifyBatch};
use pdfs_fuse::shares::{rename_shared_roots, PublishedSharedRoot};
use pdfs_fuse::sizes::{apply_size_upgrade, size_is_real, upgrade_sizes_for_parent};
use pdfs_fuse::staging::{record_pending_write, PendingRevision, StagedWrite};
use pdfs_fuse::state::{State, ROOT_INO};
use pdfs_fuse::uid::{shared_with_me_uid, NodeUid};
use pdfs_fuse::uidmap::{UidMap, UidSet};
use std::cell::RefCell;

fn uid(link: &str) -> NodeUid {
    NodeUid::new("vol".to_string(), link.to_string())
}

fn node(link: &str, parent: Option<&str>, name: &str, size: Option<i64>, is_dir: bool) -> Node {
    Node {
        uid: uid(link),
        parent_uid: parent.map(uid),
        name: name.to_string(),
        kind: if is_dir {
            NodeKind::Folder
        } else {
            NodeKind::File {
                media_type: "text/plain".to_string(),
                total_size_on_storage: 9,
                active_revision_id: None,
                content_sha1: None,
                claimed_size: size,
                claimed_modification_time: None,
            }
        },
        creation_time: 10,
        modification_time: 20,
        trashed: false,
        is_shared: false,
        is_shared_publicly: false,
        membership: None,
        album: None,
    }
}

/// `/docs` with `a.txt`, whose size is provisional, and `b.txt`, whose size is real.
fn mounted() -> (State, u64, u64, u64) {
    let mut st = State::new(node("root", None, "My Files", None, true), UidMap::new());
    let docs = st.intern_mem(ROOT_INO, node("docs", Some("root"), "docs", None, true));
    st.set_listing(ROOT_INO, vec![docs]);
    let a = st.intern_mem(docs, node("a", Some("docs"), "a.txt", None, false));
    let b = st.intern_mem(docs, node("b", Some("docs"), "b.txt", Some(5), false));
    st.set_listing(docs, vec![a, b]);
    (st, docs, a, b)
}

fn parts(names: &[&str]) -> Vec<String> {
    names.iter().map(|n| n.to_string()).collect()
}

#[test]
fn a_walk_ends_waits_or_fails() {
    let (mut st, docs, a, _) = mounted();
    match resolve_path(&st, &parts(&["/", "docs", ".", "a.txt"])) {
        WalkStep::Done { ino, uid: at } => {
            assert_eq!(ino, a);
            assert_eq!(at, uid("a"));
        }
        _ => panic!("the file is resident"),
    }
    assert!(matches!(
        resolve_path(&st, &Vec::new()),
        WalkStep::Done { ino, .. } if ino == ROOT_INO
    ));
    assert!(matches!(
        resolve_path(&st, &parts(&["docs", "missing"])),
        WalkStep::Failed(Errno::Noent)
    ));
    assert!(matches!(
        resolve_path(&st, &parts(&["docs", ".."])),
        WalkStep::Failed(Errno::Inval)
    ));
    st.invalidate_listing(docs);
    assert!(matches!(
        resolve_path(&st, &parts(&["docs", "a.txt"])),
        WalkStep::List { ino } if ino == docs
    ));
}

#[test]
fn a_walk_in_two_parts_is_one_walk() {
    let (st, docs, _, b) = mounted();
    assert!(matches!(
        resolve_path(&st, &parts(&["docs"])),
        WalkStep::Done { ino, .. } if ino == docs
    ));
    assert!(matches!(
        resolve_path(&st, &parts(&["docs", "b.txt"])),
        WalkStep::Done { ino, .. } if ino == b
    ));
}

#[test]
fn the_source_folder_of_a_node_is_its_real_one() {
    let (mut st, docs, a, _) = mounted();
    assert_eq!(source_parent_uid(&st, a, "/docs/a.txt").unwrap(), uid("docs"));
    let loose = st.intern_mem(docs, node("loose", None, "loose", None, false));
    assert_eq!(source_parent_uid(&st, loose, "/docs/loose").unwrap(), uid("docs"));
    let missing = source_parent_uid(&st, 9_999, "/gone").unwrap_err();
    assert_eq!(missing.kind, ErrorKind::NotFound);
    assert_eq!(missing.message, "could not resolve /gone");
}

#[test]
fn the_virtual_folder_keeps_what_is_persisted() {
    let fresh = prepare_virtual_root(None, &uid("root"), "Shared".to_string(), true, 77);
    assert!(fresh.visible);
    assert_eq!(fresh.node.uid, shared_with_me_uid());
    assert_eq!(fresh.node.name, "Shared");
    assert_eq!(fresh.node.parent_uid, Some(uid("root")));
    assert_eq!(fresh.node.creation_time, 77);
    assert!(!fresh.node.trashed);

    let mut stored = fresh.node;
    stored.creation_time = 3;
    let hidden =
        prepare_virtual_root(Some(stored), &uid("root"), "Shared 2".to_string(), false, 99);
    assert_eq!(hidden.node.creation_time, 3);
    assert_eq!(hidden.node.name, "Shared 2");
    assert!(hidden.node.trashed);
}

#[test]
fn a_foreign_listing_is_published_unless_it_was_overtaken() {
    let (mut st, docs, _, _) = mounted();
    let found = vec![node("c", Some("elsewhere"), "c.txt", None, false)];
    let owned = foreign_children(found, &uid("docs"));
    assert_eq!(owned[0].parent_uid, Some(uid("docs")));
    assert_eq!(owned[0].name, "c.txt");
    let late = publish_foreign_listing(&mut st, docs, &vec![uid("a")], owned, 1, 2);
    assert_eq!(late, Err(Errno::Again));
    assert!(st.owns_visible_uid(&uid("a")));

    let again = vec![node("c", Some("docs"), "c.txt", None, false)];
    let missing = publish_foreign_listing(&mut st, docs, &vec![uid("a")], again, 2, 2).unwrap();
    assert_eq!(missing, vec![uid("c")]);
    assert!(!st.owns_visible_uid(&uid("a")));
    assert_eq!(st.children.get(&docs).map(|kids| kids.len()), Some(1));
    assert!(st.owns_visible_uid(&uid("c")));
}

#[test]
fn shares_are_published_once_and_denied_when_not_persisted() {
    let mut st = State::new(node("root", None, "My Files", None, true), UidMap::new());
    let mut dir = node("root", Some("root"), "Shared", None, true);
    dir.uid = shared_with_me_uid();
    let ino = st.intern_mem(ROOT_INO, dir);
    let mut access = UidMap::new();
    access.insert(uid("s"), Access::Editor);
    let share = || vec![node("s", None, "theirs", None, true)];
    st.share_access.insert(uid("s"), Access::Editor);
    assert!(publish_persisted_shares(&mut st, ino, share()));
    assert_eq!(st.access_by_uid(&uid("s")), Some(Access::Editor));
    assert!(!publish_persisted_shares(&mut st, ino, Vec::new()));
    assert!(st.owns_visible_uid(&uid("s")));

    let mut read_only = UidMap::new();
    read_only.insert(uid("t"), Access::Viewer);
    publish_refreshed_shares(
        &mut st,
        ino,
        &vec![uid("s")],
        vec![node("t", None, "other", None, true)],
        &read_only,
    );
    assert_eq!(st.access_by_uid(&uid("t")), Some(Access::Viewer));
    assert_eq!(st.children.get(&ino).map(|kids| kids.len()), Some(1));
    let t = st.ino_of(&uid("t")).unwrap();
    assert_eq!(st.require_writable(t), Err(Errno::Acces));
    assert_eq!(st.require_writable(ROOT_INO), Ok(()));
    assert_eq!(st.require_writable(9_999), Err(Errno::Noent));

    publish_refreshed_shares(&mut st, ino, &Vec::new(), share(), &access);
    assert_eq!(st.access_by_uid(&uid("s")), Some(Access::Editor));
    assert_eq!(reject_refreshed_shares(&mut st, &vec![uid("s")]), Errno::Io);
    assert_eq!(st.access_by_uid(&uid("s")), Some(Access::Viewer));
}

#[test]
fn shared_roots_take_the_names_that_tell_them_apart() {
    let mut roots = vec![
        PublishedSharedRoot {
            node: node("s", None, "Work", None, true),
            access: Access::Editor,
        },
        PublishedSharedRoot {
            node: node("t", None, "Home", None, true),
            access: Access::Viewer,
        },
    ];
    let mut names = UidMap::new();
    names.insert(uid("s"), "Work (2)".to_string());
    rename_shared_roots(&mut roots, &names);
    assert_eq!(roots[0].node.name, "Work (2)");
    assert_eq!(roots[0].access, Access::Editor);
    assert_eq!(roots[1].node.name, "Home");
}

#[test]
fn provisional_sizes_are_replaced() {
    let (mut st, docs, a, b) = mounted();
    assert!(!size_is_real(&st, a));
    assert!(size_is_real(&st, b));
    assert!(size_is_real(&st, 9_999));
    let (key, wanted) = upgrade_sizes_for_parent(&st, a, &uid("a"), docs);
    assert_eq!(key, docs);
    assert_eq!(wanted, vec![uid("a")]);
    let (alone, one) = upgrade_sizes_for_parent(&st, a, &uid("a"), 9_999);
    assert_eq!(alone, a);
    assert_eq!(one, vec![uid("a")]);

    // Only the size is taken over.
    let fetched = vec![node("a", Some("docs"), "renamed.txt", Some(42), false)];
    let mut pending: UidMap<PendingRevision> = UidMap::new();
    let (inos, nodes) = apply_size_upgrade(&mut st, docs, Ok(fetched), &pending);
    assert_eq!(inos, vec![a]);
    assert_eq!(nodes.len(), 2);
    assert_eq!(nodes[0].name, "a.txt");
    assert!(size_is_real(&st, a));
    assert!(matches!(nodes[0].kind, NodeKind::File { claimed_size: Some(42), .. }));

    // A write that is queued meanwhile is ahead of what the remote reports.
    let shown = record_pending_write(&mut st, a, 1_000, 77).unwrap();
    assert_eq!((shown.name.as_str(), shown.modification_time), ("a.txt", 77));
    assert!(record_pending_write(&mut st, 9_999, 1, 1).is_none());
    pending.insert(
        uid("a"),
        PendingRevision {
            path: "/staging/a".to_string(),
            meta: StagedWrite {
                uid: "vol~a".to_string(),
                len: 1_000,
                base_size: 42,
                base_mtime: 20,
                authored: vec![(0, 1_000)],
                complete: true,
                based_on: None,
            },
        },
    );
    let fetched = vec![node("a", Some("docs"), "a.txt", Some(0), false)];
    let (inos, nodes) = apply_size_upgrade(&mut st, docs, Ok(fetched), &pending);
    assert_eq!(inos, vec![a]);
    assert!(matches!(nodes[0].kind, NodeKind::File { claimed_size: Some(1_000), .. }));
    let failed = apply_size_upgrade(&mut st, docs, Err(()), &pending);
    assert!(failed.0.is_empty() && failed.1.is_empty());
}

#[test]
fn a_root_listing_is_captured_or_tried_again() {
    let (mut st, _, _, _) = mounted();
    let captured = resident_root_listing_snapshot(&st, ROOT_INO).unwrap();
    assert_eq!(captured.real_names(), vec!["docs".to_string()]);
    st.invalidate_listing(ROOT_INO);
    assert!(matches!(resident_root_listing_snapshot(&st, ROOT_INO), Err(Errno::Again)));
}

#[test]
fn a_node_listed_before_its_placeholder_landed_stays_behind() {
    let (mut st, docs, a, _) = mounted();
    let local = NodeUid::new("local".to_string(), "1-1".to_string());
    let mut placeholder = node("x", Some("docs"), "new.txt", Some(0), false);
    placeholder.uid = local.clone();
    let ino = st.intern_mem(docs, placeholder);
    // The listing already holds the node under its real identity.
    let landed = node("a", Some("docs"), "new.txt", Some(9), false);
    adopt_real_uid(&mut st, &local, &uid("a"), &landed);
    assert_eq!(st.ino_of(&uid("a")), Some(ino), "the open inode answers to the identity");
    assert!(st.ino_of(&local).is_none());
    assert!(st.entries.contains_key(&a));
    // What follows works on such a tree.
    let shown = vec![node("a", Some("docs"), "new.txt", Some(9), false)];
    st.invalidate_listing(docs);
    assert!(publish_listing(&mut st, docs, shown).is_some());
    assert_eq!(st.children[&docs], vec![ino]);
    refresh_root(&mut st, node("root", None, "Renamed", None, true));
    assert_eq!(st.entries[&ROOT_INO].node.name, "Renamed");
}

#[test]
fn a_dirty_folder_is_listed_again() {
    let (st, docs, _, _) = mounted();
    let mut mounts = vec![st];
    let mut dirty = DirtyParents::new();
    let mut known = UidSet::new();
    known.insert(uid("a"));
    dirty.ours.insert(uid("docs"), known);
    let quiet = flush_dirty_parents(&mut mounts, &dirty);
    assert!(quiet[0].0.is_empty(), "our own change is already in the listing");
    assert!(mounts[0].has_children(docs));

    dirty.foreign.insert(uid("docs"));
    let batches = flush_dirty_parents(&mut mounts, &dirty);
    assert!(!mounts[0].has_children(docs));
    assert!(mounts[0].has_children(ROOT_INO));
    assert_eq!(batches[0].0, vec![KernelNotice::InvalInode(docs)]);
}

#[test]
fn notices_go_out_only_while_the_session_runs() {
    let batch = || {
        let mut b = NotifyBatch::new();
        b.inval_inode(4);
        b.inval_entry(1, "gone".to_string());
        b.delete(1, 4, "gone".to_string());
        b
    };
    assert_eq!(
        batch().flush(true),
        vec![
            KernelNotice::InvalInode(4),
            KernelNotice::InvalEntry { parent: 1, name: "gone".to_string() },
            KernelNotice::Delete { parent: 1, child: 4, name: "gone".to_string() },
        ]
    );
    assert!(batch().flush(false).is_empty());
}

#[test]
fn event_sync_resumes_seeds_or_stays_off() {
    assert!(matches!(
        sync_start(Ok(Some("e9".to_string()))),
        SyncStart::Resume(c) if c == "e9"
    ));
    assert!(matches!(sync_start(Ok(None)), SyncStart::Seed));
    assert!(matches!(sync_start(Err(())), SyncStart::Disabled));

    assert!(matches!(seed_step(None, true, 5), SeedStep::Retry { wait: 5, next: 10 }));
    assert!(matches!(seed_step(Some(Vec::new()), false, 5), SeedStep::Start(None)));
    let ids = || Some(vec!["e1".to_string(), "e2".to_string()]);
    assert!(matches!(seed_step(ids(), true, 5), SeedStep::Start(Some(id)) if id == "e2"));
    assert!(matches!(seed_step(ids(), false, 200), SeedStep::Retry { wait: 200, next: 300 }));
}

#[test]
fn deleted_resident_root_without_share_row_is_denied_and_tombstoned() {
    let root = uid("resident-without-row");
    let event = DriveEvent::NodeDeleted {
        id: "event-missing-row".to_string(),
        node_uid: root.clone(),
        parent_node_uid: None,
    };
    let stored: RefCell<UidMap<Access>> = RefCell::new(UidMap::new());
    assert!(stored.borrow().get(&root).is_none());
    let mut access = UidMap::new();
    access.insert(root.clone(), Access::Editor);
    let mut resident = State::new(node("root", None, "My Files", None, true), access);
    resident.intern_mem(
        ROOT_INO,
        node("resident-without-row", Some("root"), "Shared", None, true),
    );
    assert_eq!(resident.access_by_uid(&root), Some(Access::Editor));

    match event_write(&event, "vol") {
        StoreWrite::DowngradeShare(target) => {
            assert_eq!(target, root);
            let _ = resident.downgrade_shared_subtree(&target);
            stored.borrow_mut().insert(target, Access::Viewer);
        }
        _ => panic!("a deleted node loses its share"),
    }
    assert_eq!(resident.access_by_uid(&root), Some(Access::Viewer));
    assert_eq!(stored.borrow().get(&root), Some(&Access::Viewer));

    let cursor = RefCell::new(None);
    let acknowledged = acknowledge_applied_event::<(), _>(&event, Ok(()), |id: &String| {
        *cursor.borrow_mut() = Some(id.clone());
        Ok(())
    })
    .unwrap();
    assert_eq!(acknowledged, "event-missing-row");
    assert_eq!(cursor.into_inner().as_deref(), Some("event-missing-row"));
}

#[test]
fn a_fetch_tells_a_missing_node_from_a_failure() {
    assert_eq!(fetch_node(Fetched::Found(3)), Ok(3));
    assert_eq!(fetch_node::<u8>(Fetched::Gone), Err(Errno::Noent));
    assert_eq!(fetch_node::<u8>(Fetched::Failed), Err(Errno::Io));
    assert_eq!(fetch_node_remote(Ok(Some(3))), Ok(Some(3)));
    assert_eq!(fetch_node_remote::<u8>(Err(Some(ApiCode::DoesNotExist))), Ok(None));
    assert_eq!(
        fetch_node_remote::<u8>(Err(Some(ApiCode::Other(500)))),
        Err(Some(ApiCode::Other(500)))
    );
    assert_eq!(fetch_node_remote::<u8>(Err(None)), Err(None));
    assert!(is_already_exists(Some(ApiCode::AlreadyExists)));
    assert!(!is_already_exists(Some(ApiCode::DoesNotExist)));
    assert!(!is_already_exists(None));
}

#[test]
fn a_moved_node_is_forgotten_and_its_folders_read_again() {
    let (mut st, docs, a, _) = mounted();
    assert_eq!(move_to(&mut st, &uid("a"), &vec![docs]), "a.txt");
    assert!(st.ino_of(&uid("a")).is_none());
    assert!(!st.entries.contains_key(&a));
    assert!(!st.has_children(docs));
    assert_eq!(move_to(&mut st, &uid("a"), &Vec::new()), "");
}

#[test]
fn a_node_lands_beside_itself_or_in_the_root() {
    let at = |parent: &str, name: &str| Some(node("a", Some(parent), name, Some(1), false));
    assert_eq!(placement(&None, &uid("docs"), "a"), Placement::Missing);
    assert_eq!(placement(&at("docs", "a"), &uid("docs"), "a"), Placement::Here { same_name: true });
    assert_eq!(
        placement(&at("root", "b"), &uid("docs"), "a"),
        Placement::Elsewhere { same_name: false }
    );
    let mut trashed = node("a", Some("docs"), "a", Some(1), false);
    trashed.trashed = true;
    assert_eq!(placement(&Some(trashed), &uid("docs"), "a"), Placement::Missing);

    assert_eq!(land_name(LandName::Wanted, "w.txt", "c.txt", 7), "w.txt");
    assert_eq!(land_name(LandName::Current, "w.txt", "c.txt", 7), "c.txt");
    assert_eq!(land_name(LandName::Conflict, "w.txt", "c.txt", 7), "w (sync-conflict 7).txt");

    let beside = copy_place(Some((uid("docs"), "a.txt".to_string())), Some(uid("root")), &uid("a"));
    assert_eq!(beside, (Some(uid("docs")), "a.txt".to_string()));
    let lost = copy_place(None, Some(uid("root")), &uid("0123456789"));
    assert_eq!(lost, (Some(uid("root")), "recovered-01234567".to_string()));
}

#[test]
fn a_discarded_node_has_nothing_queued() {
    let mut pending: UidMap<u8> = UidMap::new();
    pending.insert(uid("a"), 1);
    pending.insert(uid("b"), 2);
    discard_queued_ops(&mut pending, &uid("a"));
    assert!(!pending.contains_key(&uid("a")));
    assert_eq!(pending.get(&uid("b")), Some(&2));
}

#[test]
fn names_and_rows_are_checked() {
    assert!(name_is_usable("report.txt"));
    assert!(!name_is_usable(""));
    assert!(!name_is_usable("a/b"));
    assert!(removed_row(4, true).is_ok());
    let missing = removed_row(4, false).unwrap_err();
    assert_eq!(missing.kind, ErrorKind::Invalid);
    assert_eq!(missing.message, "no synced folder with id 4");
    assert_eq!(adoption_cleared(), "adoption cleared; device now resolved by hostname");
}

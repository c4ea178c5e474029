use pdfs_fuse::albums::{
    album_info, album_outcome, album_photos, albums, albums_answer, refresh_album, refresh_albums,
    spawn_albums_refresh, AlbumItem,
    AlbumsPlan, PhotoOutcome, StoredAlbum,
};
use pdfs_fuse::browse::{
    list_dir, mark_kept, open_file, open_file_uid, open_source, pin, pin_subtree, pinned_folder,
    readable_uids, unpin,
};
use pdfs_fuse::clock::{
    millis_of, now_millis, now_ms, now_secs, secs_of, unix_secs, EpochOffset,
};
use pdfs_fuse::conflicts::{
    chosen_name, half_resolved, list_conflicts, require_settled, resolve_conflict, resolved_lines,
    ConflictKeep, ConflictRow, ResolveStep,
};
use pdfs_fuse::control::{
    bad_request, can_end, handle_control_conn, is_request, queued_counts, reply, summarize_added,
    summarize_failure, summarize_upload, ActivityKind, Outcome, Request, Response, UploadStats,
};
use pdfs_fuse::error::{errno_error, Errno, ErrorKind};
use pdfs_fuse::maintenance::{
    finish_integrity_check, finish_vacuum, start_or_read_integrity_check, start_vacuum, Maintenance,
};
use pdfs_fuse::mount::{
    abort_path, end_mount, fetch_or_recall_root, fuse_connection_id, is_stale_mount, mount,
    mount_over, repair_primary_share_id, start_error, start_failure, stop_workers,
    teardown_session, umount_session_unblocked, MountEvent, MountOptions, MountOutcome,
    SecondaryInsertRejection, SecondaryMount, SecondaryMountRegistry, ShareRepair, StartFailure,
    StartStep, StopStep, SweepMode, WayDown,
};
use pdfs_fuse::names::{conflict_name, count_noun, fuse_name, human_bytes, human_duration};
use pdfs_fuse::node::{AlbumProperties, Node, NodeKind};
use pdfs_fuse::paths::{relative_to, sibling_path};
use pdfs_fuse::modes::StoredSyncFolder;
use pdfs_fuse::search::{
    candidate_limit, join_path, search, search_local, search_roots, search_v2, DriveCandidate,
    LocalCandidate, RootCandidate, SearchRoots,
};
use pdfs_fuse::sizes::{
    next_chunk, split_waiters, upgrade_sizes, SizeUpgrade, SizeWaitQueue, SizeWaiter, UpgradeStart,
};
use pdfs_fuse::state::{State, ROOT_INO};
use pdfs_fuse::thumbnails::{
    thumbnail, thumbnail_downloaded, thumbnail_target, ThumbnailAnswer, ThumbnailMissCaches,
    ThumbnailPlan, MAX_THUMBNAIL_MISSES,
};
use pdfs_fuse::trash::{
    batch_answer, count_outcome, drop_local, invalidate_children_of, list_trash, parse_uids,
    refresh_trash, restore_node, spawn_trash_refresh, trash_entries, BatchTally, StoredTrash,
};
use pdfs_fuse::uid::{parse_uid, NodeUid};
use pdfs_fuse::uidmap::{UidMap, UidSet};
use std::cell::Cell;
use std::collections::HashMap;
use std::sync::atomic::{AtomicBool, Ordering};
use std::sync::Arc;

fn uid(link: &str) -> NodeUid {
    NodeUid::new("vol".to_string(), link.to_string())
}

fn file(link: &str, name: &str, size: i64, sha: Option<&str>) -> Node {
    Node {
        uid: uid(link),
        parent_uid: Some(uid("root")),
        kind: NodeKind::File {
            media_type: "image/png".to_string(),
            total_size_on_storage: 0,
            active_revision_id: None,
            claimed_size: Some(size),
            claimed_modification_time: None,
            content_sha1: sha.map(str::to_string),
        },
        name: name.to_string(),
        creation_time: 0,
        modification_time: 7,
        trashed: false,
        is_shared: false,
        is_shared_publicly: false,
        membership: None,
        album: None,
    }
}

fn folder(link: &str, name: &str) -> Node {
    Node { kind: NodeKind::Folder, ..file(link, name, 0, None) }
}

#[test]
fn session_is_unroutable_before_teardown_starts() {
    let live = AtomicBool::new(true);
    teardown_session(&live, || {
        assert!(
            !live.load(Ordering::Acquire),
            "teardown must never run while the registry still reports mounted"
        );
    });
}

#[test]
fn secondary_registry_rejects_closed_and_duplicate_insertions() {
    let mut mounts = SecondaryMountRegistry::default();
    assert_eq!(
        mounts.insert(7, "closed"),
        Err((SecondaryInsertRejection::Closed, "closed"))
    );

    mounts.open();
    assert_eq!(mounts.insert(7, "first"), Ok(()));
    assert_eq!(
        mounts.insert(7, "duplicate"),
        Err((SecondaryInsertRejection::Duplicate, "duplicate"))
    );
    assert!(mounts.contains_key(&7));

    assert_eq!(mounts.close_and_drain(), vec![(7, "first")]);
    assert!(!mounts.is_accepting());
}

#[test]
fn a_removed_mount_can_be_registered_again() {
    let mut mounts = SecondaryMountRegistry::default();
    mounts.open();
    for id in 0..3 {
        mounts.insert(id, id * 10).unwrap();
    }
    assert_eq!(mounts.remove(&1), Some(10));
    assert_eq!(mounts.remove(&1), None);
    assert!(mounts.contains_key(&0) && mounts.contains_key(&2));
    assert_eq!(mounts.insert(1, 11), Ok(()));
    mounts.close();
    assert!(mounts.insert(9, 9).is_err());
    let mut drained = mounts.close_and_drain();
    drained.sort();
    assert_eq!(drained, vec![(0, 0), (1, 11), (2, 20)]);
}

#[test]
fn a_secondary_mount_is_aborted_then_unmounted() {
    let live = Arc::new(AtomicBool::new(true));
    let order = Cell::new(0);
    let m = SecondaryMount::new("session", Some(5), live.clone());
    let r = m.teardown(
        |id: u32| {
            assert_eq!((id, order.get()), (5, 0));
            assert!(!live.load(Ordering::Acquire));
            order.set(1);
        },
        |s: &str| {
            assert_eq!((s, order.get()), ("session", 1));
            42
        },
    );
    assert_eq!(r, 42);
    let r = umount_session_unblocked(
        1u8,
        None,
        |_: u32| panic!("no connection to abort"),
        |s: u8| s + 1,
    );
    assert_eq!(r, 2);
}

#[test]
fn is_stale_mount_is_narrow() {
    assert!(!is_stale_mount(Ok(())));
    assert!(!is_stale_mount(Err(Errno::Noent)));
    assert!(is_stale_mount(Err(Errno::Notconn)));
}

#[test]
fn the_connection_is_the_minor_number() {
    assert_eq!(fuse_connection_id(None), None);
    assert_eq!(fuse_connection_id(Some(0x2a)), Some(0x2a));
    assert_eq!(fuse_connection_id(Some(0x30_05ff)), Some(0x3ff));
    assert_eq!(abort_path(41), "/sys/fs/fuse/connections/41/abort");
}

#[test]
fn a_cold_start_without_a_root_fails() {
    let (_, online) = fetch_or_recall_root(Ok(folder("r", "root")), None).unwrap();
    assert!(online);
    let (_, online) =
        fetch_or_recall_root(Err("e".to_string()), Some(folder("r", "root"))).unwrap();
    assert!(!online);
    assert_eq!(
        fetch_or_recall_root(Err("net".to_string()), None).unwrap_err(),
        "fetch My Files root: net"
    );
}

#[test]
fn a_mount_starts_and_ends_in_order() {
    let options = MountOptions { username: "u".to_string(), sweep_mode: SweepMode::Off };
    assert_eq!(options.username, "u");
    let steps = mount(options.sweep_mode, true);
    let at = |s: StartStep| steps.iter().position(|x| *x == s);
    assert!(at(StartStep::HydratePending) < at(StartStep::SpawnDrain));
    assert!(at(StartStep::SpawnSession) < at(StartStep::SpawnControl));
    assert_eq!(at(StartStep::SpawnSweep), None);
    assert_eq!(at(StartStep::SpawnProbe), None);
    assert!(at(StartStep::SpawnShareRepair).is_some());
    let offline = mount(SweepMode::On, false);
    assert!(offline.contains(&StartStep::SpawnSweep) && offline.contains(&StartStep::SpawnProbe));
    assert!(!offline.contains(&StartStep::SpawnShareRepair));
    assert_eq!(start_failure(StartStep::SpawnControl), StartFailure::AbortMounted);
    assert_eq!(start_failure(StartStep::RestrictSocket), StartFailure::AbortSocket);
    assert_eq!(start_failure(StartStep::SpawnRestore), StartFailure::Continue);
    assert_eq!(start_failure(StartStep::BindSocket), StartFailure::Abort);
    assert_eq!(
        start_error(StartStep::RestrictSocket, "e"),
        "control socket permissions: e"
    );
    assert_eq!(start_error(StartStep::ProjectMount, "e"), "project My Files mount: e");
    assert_eq!(
        mount_over(MountEvent::Stop, false),
        Some((MountOutcome::Shutdown, WayDown::Unmount))
    );
    assert_eq!(mount_over(MountEvent::Timeout, false), None);
    assert_eq!(
        mount_over(MountEvent::Timeout, true),
        Some((MountOutcome::Unmounted, WayDown::Join))
    );
    assert_eq!(
        mount_over(MountEvent::Deaf, false),
        Some((MountOutcome::Unmounted, WayDown::Join))
    );
    let stops = end_mount();
    assert_eq!(stops[0], StopStep::CloseRegistry);
    assert_eq!(stops.last(), Some(&StopStep::JoinWorkers));
    assert_eq!(stop_workers()[0], StopStep::SignalStop);
    assert_eq!(repair_primary_share_id(false, Ok(true)), ShareRepair::Unresolved);
    assert_eq!(repair_primary_share_id(true, Ok(false)), ShareRepair::Stale);
    assert_eq!(repair_primary_share_id(true, Ok(true)), ShareRepair::Repaired);
    assert_eq!(repair_primary_share_id(true, Err(())), ShareRepair::Unwritten);
}

#[test]
fn the_original_sits_next_to_its_copy() {
    assert_eq!(
        sibling_path("a/b/f (sync-conflict 1).txt", "f.txt"),
        "a/b/f.txt"
    );
    assert_eq!(sibling_path("f (sync-conflict 1).txt", "f.txt"), "f.txt");
}

#[test]
fn conflict_copies_are_listed_with_their_originals() {
    let row = |n: Node, base: Option<&str>, path: &str| ConflictRow {
        node: n,
        base: base.map(str::to_string),
        path: Some(path.to_string()),
    };
    let mut trashed = file("t", "f.txt", 9, Some("x"));
    trashed.trashed = true;
    let rows = vec![
        row(file("o", "f.txt", 4, Some("aa")), None, "f.txt"),
        row(file("c2", "z (c).txt", 5, None), Some("z.txt"), "z (c).txt"),
        row(file("c1", "f (c).txt", 4, Some("aa")), Some("f.txt"), "f (c).txt"),
        row(trashed, None, "f.txt"),
    ];
    let items = list_conflicts(&rows, "vol");
    assert_eq!(items.len(), 2);
    assert_eq!(items[0].path, "f (c).txt");
    assert!(items[0].original_exists && items[0].identical);
    assert_eq!(items[0].original_size, Some(4));
    assert_eq!(items[0].original_path, "f.txt");
    assert!(!items[1].original_exists && !items[1].identical);
    assert!(list_conflicts(&rows, "other").is_empty());
}

#[test]
fn a_conflict_is_resolved_only_between_settled_files() {
    let name = Some("f (c).txt".to_string());
    let base = Some("f.txt".to_string());
    assert_eq!(
        resolve_conflict(&name, &base, &ConflictKeep::Copy).unwrap(),
        vec![
            ResolveStep::SettleCopy,
            ResolveStep::SettleOriginal,
            ResolveStep::TrashOriginal,
            ResolveStep::RenameToBase
        ]
    );
    assert_eq!(
        resolve_conflict(&None, &base, &ConflictKeep::Original).unwrap_err().message,
        "the conflict copy has no file name"
    );
    assert_eq!(
        resolve_conflict(&name, &None, &ConflictKeep::Original).unwrap_err().message,
        "f (c).txt is not a conflict copy"
    );
    assert_eq!(chosen_name(" g.txt ", "f.txt", "f (c).txt").unwrap(), "g.txt");
    assert_eq!(
        chosen_name("f.txt", "f.txt", "f (c).txt").unwrap_err().message,
        "choose a name that no other file has"
    );
    let lines = resolved_lines(&ConflictKeep::Original, "f (c).txt", "f.txt", "");
    assert_eq!(lines.0, "kept f.txt; the copy is in Trash");
    let lines = resolved_lines(&ConflictKeep::Copy, "f (c).txt", "f.txt", "");
    assert_eq!(lines.0, "kept the copy as f.txt; the previous version is in Trash");
    assert_eq!(lines.2, "kept the conflict copy f (c).txt");
    let both = ConflictKeep::Both { name: "g".to_string() };
    assert_eq!(resolved_lines(&both, "f (c).txt", "f.txt", "g").2, "was f (c).txt");
    assert_eq!(
        half_resolved("f"),
        "f was moved to Trash, but the copy kept its conflict name"
    );
    assert!(require_settled(Ok(false), false, "f").is_ok());
    for refused in [
        require_settled(Ok(true), false, "f"),
        require_settled(Err(()), false, "f"),
        require_settled(Ok(false), true, "f"),
    ] {
        assert_eq!(refused.unwrap_err().kind, ErrorKind::Conflict);
    }
}

#[test]
fn conflict_name_keeps_the_extension() {
    assert_eq!(
        conflict_name("notes.txt", 1700),
        "notes (sync-conflict 1700).txt"
    );
    assert_eq!(conflict_name("README", 42), "README (sync-conflict 42)");
    assert_eq!(
        conflict_name("archive.tar.gz", 7),
        "archive.tar (sync-conflict 7).gz",
        "only the last extension is one, as everywhere else"
    );
}

#[test]
fn fuse_names_enforce_linux_component_limits() {
    assert_eq!(fuse_name("x".repeat(255).into_bytes()).unwrap().len(), 255);
    assert_eq!(
        fuse_name("x".repeat(256).into_bytes()).expect_err("256-byte component must be refused"),
        Errno::Nametoolong
    );
    assert_eq!(
        fuse_name(b".".to_vec()).expect_err("dot is not an ordinary component"),
        Errno::Inval
    );
    assert_eq!(fuse_name("unicodé-文件".as_bytes().to_vec()).unwrap(), "unicodé-文件");
    assert_eq!(fuse_name(vec![0xff, 0xfe]).unwrap_err(), Errno::Ilseq);
}

#[test]
fn amounts_are_shown_to_a_human() {
    assert_eq!(count_noun(1, "file", "files"), "1 file");
    assert_eq!(count_noun(700, "file", "files"), "700 files");
    assert_eq!(human_bytes(512), "512 B");
    assert_eq!(human_bytes(1536), "1.5 KB");
    assert_eq!(human_duration(0, 820), "820ms");
    assert_eq!(human_duration(43, 0), "43s");
    assert_eq!(human_duration(125, 0), "2m 5s");
}

#[test]
fn errors_are_told_by_their_kind() {
    assert_eq!(errno_error(Errno::Noent, "x", true, "s").kind, ErrorKind::NotFound);
    assert_eq!(errno_error(Errno::Acces, "x", true, "s").kind, ErrorKind::Denied);
    assert_eq!(errno_error(Errno::Io, "x", false, "s").kind, ErrorKind::Offline);
    assert_eq!(errno_error(Errno::Io, "x", true, "s").message, "x: s");
    assert_eq!(errno_error(Errno::Inval, "x", true, "s").kind, ErrorKind::Invalid);
    assert_eq!(errno_error(Errno::Nospc, "x", true, "s").kind, ErrorKind::Quota);
    assert_eq!(errno_error(Errno::Exist, "x", true, "s").kind, ErrorKind::Conflict);
    assert_eq!(errno_error(Errno::Notempty, "x", true, "s").kind, ErrorKind::Conflict);
}

#[test]
fn remote_misses_never_suppress_local_generation() {
    let key = (parse_uid("volume~node").expect("uid"), 1);
    let again = || (parse_uid("volume~node").expect("uid"), 1);
    let mut misses = ThumbnailMissCaches::default();

    misses.remember_remote(again(), 42);
    assert!(misses.remote_contains(&key, 42));
    assert!(!misses.local_contains(&key, 42));

    misses.remember_local(again(), 42);
    assert!(misses.local_contains(&key, 42));
    misses.forget_local(&key);
    assert!(!misses.local_contains(&key, 42));
    assert!(misses.remote_contains(&key, 42));
}

#[test]
fn local_miss_cache_is_bounded_on_gui_only_paths() {
    let mut misses = ThumbnailMissCaches::default();
    for index in 0..=MAX_THUMBNAIL_MISSES {
        let uid = parse_uid(&format!("volume~node-{index}")).expect("uid");
        misses.remember_local((uid, 1), 42);
    }
    assert_eq!(misses.local.len(), 1);
}

#[test]
fn a_thumbnail_is_cached_missing_or_downloaded() {
    let mut st = State::new(folder("root", "root"), UidMap::new());
    let ino = st.intern_mem(ROOT_INO, file("f", "f", 1, None));
    assert_eq!(thumbnail_target(&st, ino), Ok(Some((uid("f"), 7))));
    assert_eq!(thumbnail_target(&st, ROOT_INO), Ok(None));
    assert_eq!(thumbnail_target(&st, 99), Err(Errno::Noent));
    let mut misses = ThumbnailMissCaches::default();
    let key = (uid("f"), 1);
    assert_eq!(thumbnail(true, &misses, &key, 7), ThumbnailPlan::Cached);
    assert_eq!(thumbnail(false, &misses, &key, 7), ThumbnailPlan::Download);
    assert_eq!(
        thumbnail_downloaded(&mut misses, (uid("f"), 1), 7, Ok(false)),
        ThumbnailAnswer::Nothing
    );
    assert_eq!(thumbnail(false, &misses, &key, 7), ThumbnailPlan::Missing);
    assert_eq!(thumbnail(false, &misses, &key, 8), ThumbnailPlan::Download);
    assert_eq!(
        thumbnail_downloaded(&mut misses, (uid("f"), 1), 7, Ok(true)),
        ThumbnailAnswer::Store
    );
    assert_eq!(
        thumbnail_downloaded(&mut misses, (uid("f"), 1), 7, Err(())),
        ThumbnailAnswer::Fail(Errno::Io)
    );
}

fn roots(pairs: &[(&str, &str)]) -> SearchRoots {
    SearchRoots {
        roots: pairs
            .iter()
            .map(|(root, local)| ((*root).to_string(), (*local).to_string()))
            .collect(),
    }
}

#[test]
fn a_hit_below_a_root_resolves_through_it() {
    let roots = roots(&[("Videos/Anime", "/home/u/anime")]);
    assert_eq!(
        roots.resolve("Videos/Anime/s01/e01.mkv").as_deref(),
        Some("/home/u/anime/s01/e01.mkv")
    );
}

#[test]
fn a_hit_outside_every_root_resolves_nowhere() {
    let roots = roots(&[("Videos/Anime", "/home/u/anime")]);
    assert_eq!(roots.resolve("Documents/tax.pdf"), None);
}

#[test]
fn a_sibling_sharing_a_name_prefix_is_not_below_the_root() {
    let roots = roots(&[("Videos/Anime", "/home/u/anime")]);
    assert_eq!(roots.resolve("Videos/Anime2/e01.mkv"), None);
}

#[test]
fn the_most_specific_root_wins() {
    let roots = roots(&[
        ("Videos", "/home/u/videos"),
        ("Videos/Anime", "/home/u/anime"),
    ]);
    assert_eq!(
        roots.resolve("Videos/Anime/e01.mkv").as_deref(),
        Some("/home/u/anime/e01.mkv"),
        "the root leaving the shortest descendant path is the one the user \
         configured for this content"
    );
    assert_eq!(
        roots.resolve("Videos/Anime").as_deref(),
        Some("/home/u/anime/"),
        "a root itself is opened through itself"
    );
}

#[test]
fn a_root_covering_the_whole_drive_resolves_everything() {
    let roots = roots(&[("", "/home/u/drive")]);
    assert_eq!(
        roots.resolve("Documents/tax.pdf").as_deref(),
        Some("/home/u/drive/Documents/tax.pdf")
    );
}

#[test]
fn the_root_folder_itself_resolves_to_its_local_directory() {
    let roots = roots(&[("Videos/Anime", "/home/u/anime")]);
    assert_eq!(
        roots.resolve("Videos/Anime").as_deref(),
        Some("/home/u/anime/")
    );
}

#[test]
fn paths_join_and_relate() {
    assert_eq!(join_path("/a/", "b"), "/a/b");
    assert_eq!(join_path("", "b"), "b");
    assert_eq!(join_path("/a", "/b"), "/b");
    assert_eq!(relative_to("a", "a/b"), Some("b"));
    assert_eq!(relative_to("a", "ab"), None);
}

fn candidate(name: &str, uid: &str, score: Option<i64>) -> DriveCandidate {
    DriveCandidate {
        name: name.to_string(),
        is_dir: false,
        size: 1,
        modified: 2,
        uid: uid.to_string(),
        path: format!("d/{name}"),
        score,
    }
}

#[test]
fn hits_are_ranked_and_capped() {
    let pinned = vec!["v~2".to_string()];
    let none = roots(&[]);
    let local = || LocalCandidate {
        name: "l".to_string(),
        path: "/l".to_string(),
        is_dir: false,
        size: -5,
        mtime: 3,
        score: Some(4),
    };
    let drive = || {
        vec![
            candidate("b", "v~1", Some(100)),
            candidate("a", "v~3", Some(100)),
            candidate("pinned", "v~2", Some(10)),
            candidate("no", "v~4", None),
        ]
    };
    let (hits, locals) = search_v2("q", 10, drive(), vec![local()], &pinned, &none);
    let names: Vec<&str> = hits.iter().map(|h| h.name.as_str()).collect();
    assert_eq!(names, vec!["pinned", "a", "b"]);
    assert_eq!(hits[0].score, 260);
    assert!(hits[0].pinned && !hits[1].pinned);
    assert_eq!((locals[0].size, locals[0].score), (0, 4));
    let (hits, _) = search_v2("q", 1, drive(), vec![], &pinned, &none);
    assert_eq!(hits.len(), 1);
    let (hits, locals) = search_v2("  ", 5, drive(), vec![local()], &pinned, &none);
    assert!(hits.is_empty() && locals.is_empty());
    assert_eq!(candidate_limit("q", 3), Some(100));
    assert_eq!(candidate_limit("q", 50), Some(500));
    assert_eq!(candidate_limit("q", 5000), Some(1000));
    assert_eq!(candidate_limit("q", 0), None);
    let plain = search(drive(), &pinned, &none);
    assert_eq!(plain.len(), 4);
    assert!(plain.iter().all(|h| h.score == 0));
    assert_eq!(search_local(vec![local()])[0].score, 0);
}

#[test]
fn only_reachable_folders_are_search_roots() {
    let c = |mode: &str, mounted: bool, drive: Option<&str>| RootCandidate {
        folder: StoredSyncFolder {
            id: 1,
            local_path: format!("/l/{mode}"),
            remote_uid: String::new(),
            remote_share_id: String::new(),
            mode: mode.to_string(),
            pending_mode: None,
            state: String::new(),
            last_sync: 0,
        },
        mounted,
        drive_path: drive.map(str::to_string),
    };
    let r = search_roots(vec![
        c("ondemand", false, Some("a")),
        c("ondemand", true, Some("b")),
        c("mirror", false, Some("c")),
        c("mirror", false, None),
        c("odd", true, Some("d")),
    ]);
    let drives: Vec<&str> = r.roots.iter().map(|p| p.0.as_str()).collect();
    assert_eq!(drives, vec!["b", "c"]);
}

/// Serve what is parked once, and answer with the tokens that are due.
fn serve_once(queue: &mut SizeWaitQueue, slot: &SizeUpgrade, resolved: bool, now: u64) -> Vec<u64> {
    let taken = queue.take();
    let ready: Vec<bool> = taken.iter().map(|_| resolved || slot.is_finished()).collect();
    let (due, keep) = split_waiters(taken, &ready, now);
    let _ = queue.serve(keep, now);
    due.iter().map(|w| w.token).collect()
}

fn far_off(token: u64) -> SizeWaiter {
    SizeWaiter { token, deadline: 30_000 }
}

#[test]
fn a_waiter_returns_on_the_chunk_that_resolves_it() {
    let mut queue = SizeWaitQueue::new();
    let mut slot = SizeUpgrade::new();
    assert!(queue.park(far_off(1)));
    assert!(serve_once(&mut queue, &slot, false, 0).is_empty());
    slot.chunk_done();
    assert_eq!(serve_once(&mut queue, &slot, true, 30), vec![1]);
    assert!(!slot.is_finished(), "released by the first chunk, not the last");
}

#[test]
fn an_unrelated_chunk_does_not_release_a_waiter() {
    let mut queue = SizeWaitQueue::new();
    let mut slot = SizeUpgrade::new();
    queue.park(far_off(1));
    slot.chunk_done();
    assert!(serve_once(&mut queue, &slot, false, 30).is_empty());
    slot.finish();
    assert_eq!(serve_once(&mut queue, &slot, false, 150), vec![1]);
}

#[test]
fn finish_releases_a_waiter_that_was_never_resolved() {
    let mut queue = SizeWaitQueue::new();
    let mut slot = SizeUpgrade::new();
    queue.park(far_off(1));
    slot.finish();
    assert_eq!(serve_once(&mut queue, &slot, false, 30), vec![1]);
}

#[test]
fn an_already_resolved_waiter_does_not_block() {
    let mut queue = SizeWaitQueue::new();
    queue.park(far_off(1));
    assert_eq!(serve_once(&mut queue, &SizeUpgrade::new(), true, 0), vec![1]);
}

#[test]
fn waiting_after_finish_returns_at_once() {
    let mut queue = SizeWaitQueue::new();
    let mut slot = SizeUpgrade::new();
    slot.finish();
    queue.park(far_off(1));
    assert_eq!(serve_once(&mut queue, &slot, false, 0), vec![1]);
}

#[test]
fn all_waiters_are_released() {
    let mut queue = SizeWaitQueue::new();
    let mut slot = SizeUpgrade::new();
    for token in 0..8 {
        assert_eq!(queue.park(far_off(token)), token == 0);
    }
    assert!(serve_once(&mut queue, &slot, false, 20).is_empty());
    slot.finish();
    assert_eq!(serve_once(&mut queue, &slot, false, 40).len(), 8);
}

#[test]
fn a_waiter_gives_up_at_the_deadline() {
    let mut queue = SizeWaitQueue::new();
    let slot = SizeUpgrade::new();
    queue.park(SizeWaiter { token: 1, deadline: 120 });
    assert!(serve_once(&mut queue, &slot, false, 119).is_empty());
    assert_eq!(serve_once(&mut queue, &slot, false, 120), vec![1]);
}

#[test]
fn the_queue_serves_again_after_it_has_drained() {
    let mut queue = SizeWaitQueue::new();
    for token in 0..3 {
        assert!(queue.park(far_off(token)), "a drained queue needs a new server");
        assert_eq!(serve_once(&mut queue, &SizeUpgrade::new(), true, 0), vec![token]);
    }
}

#[test]
fn answer_all_releases_everything_parked() {
    let mut queue = SizeWaitQueue::new();
    for token in 0..4 {
        queue.park(far_off(token));
    }
    assert_eq!(queue.answer_all().len(), 4);
}

#[test]
fn upgrades_are_bounded_and_chunked() {
    let mut flight: HashMap<u64, SizeUpgrade> = HashMap::new();
    assert_eq!(upgrade_sizes(&mut flight, 1, &vec![]), UpgradeStart::Nothing);
    for key in 0..8 {
        assert_eq!(upgrade_sizes(&mut flight, key, &vec![uid("a")]), UpgradeStart::Start);
    }
    assert_eq!(upgrade_sizes(&mut flight, 3, &vec![uid("a")]), UpgradeStart::Join);
    assert_eq!(upgrade_sizes(&mut flight, 9, &vec![uid("a")]), UpgradeStart::Full);
    assert_eq!(next_chunk(0, 400, 150), 150);
    assert_eq!(next_chunk(300, 400, 150), 400);
}

#[test]
fn a_request_outside_the_mount_is_refused() {
    let pin = |path: &str| Request::Pin { path: path.to_string() };
    let route = handle_control_conn(&pin("/mnt/a/b"), "/mnt").unwrap();
    assert_eq!(route.first, Some(vec!["a".to_string(), "b".to_string()]));
    assert_eq!(
        handle_control_conn(&pin("/etc/x"), "/mnt").unwrap_err(),
        "/etc/x is not under the mountpoint"
    );
    let mv = Request::Move { path: "a".to_string(), new_parent: "/q".to_string() };
    assert_eq!(
        handle_control_conn(&mv, "/mnt").unwrap_err(),
        "/q is not under the mountpoint"
    );
    let photo = Request::OpenPhoto { uid: "x".to_string() };
    assert_eq!(handle_control_conn(&photo, "/mnt").unwrap_err(), "bad uid: x");
    let photo = Request::OpenPhoto { uid: "v~x".to_string() };
    assert_eq!(handle_control_conn(&photo, "/mnt").unwrap().uid.unwrap().link_id, "x");
    assert!(handle_control_conn(&Request::Status, "/mnt").unwrap().first.is_none());
}

fn told(req: Request, outcome: Outcome) -> (String, Option<(ActivityKind, String, String, bool)>) {
    let r = reply(&req, outcome);
    let text = match r.response {
        Response::Message(s) => s,
        Response::Error(s) => format!("! {s}"),
        Response::Payload => "payload".to_string(),
    };
    (text, r.activity.map(|a| (a.kind, a.target, a.detail, a.ok)))
}

#[test]
fn requests_are_answered_and_logged() {
    let named = || Outcome::Named("n".to_string());
    let failed = || Outcome::Failed("e".to_string());
    assert_eq!(told(Request::Pin { path: "a".into() }, named()), ("pinned n".to_string(), None));
    assert_eq!(
        told(Request::Rename { path: "a".into() }, named()),
        (
            "renamed to n".to_string(),
            Some((ActivityKind::Rename, "n".into(), "was a".into(), true))
        )
    );
    assert_eq!(
        told(Request::Rename { path: "a".into() }, failed()),
        ("! e".to_string(), Some((ActivityKind::Rename, "a".into(), "e".into(), false)))
    );
    assert_eq!(
        told(Request::Move { path: "a".into(), new_parent: String::new() }, named()).1,
        Some((ActivityKind::Move, "n".into(), "to My files".into(), true))
    );
    assert_eq!(
        told(Request::EmptyTrash, Outcome::Count(3)),
        (
            "emptied trash (3 item(s))".to_string(),
            Some((ActivityKind::EmptyTrash, "3 item(s)".into(), String::new(), true))
        )
    );
    assert_eq!(told(Request::EmptyTrash, failed()), ("! e".to_string(), None));
    assert_eq!(
        told(Request::PurgeCache, Outcome::Count(1_572_864)).0,
        "purged 1.5 MiB of unpinned cache"
    );
    assert_eq!(told(Request::UploadPhoto, failed()).0, "! upload photo failed: e");
    assert_eq!(
        told(
            Request::ShareNode { path: "p".into(), role: "editor".into() },
            Outcome::Invited { proton: 2, external: 1 }
        ),
        (
            "invited 2 Proton and 1 external user(s)".to_string(),
            Some((ActivityKind::Share, "p".into(), "3 recipient(s) as editor".into(), true))
        )
    );
    assert_eq!(
        told(Request::SetCacheBudget { bytes: 9 }, Outcome::Done).0,
        "cache budget set to 9 bytes"
    );
    assert_eq!(
        told(Request::SetCacheBudget { bytes: 9 }, Outcome::Unsaved("x".into())).0,
        "! budget applied but config write failed: x"
    );
    assert_eq!(
        told(Request::SetCacheBudget { bytes: 9 }, Outcome::Unconfigured("x".into())).0,
        "! budget applied but config unavailable: x"
    );
    assert_eq!(told(Request::SyncNow { id: Some(-4) }, Outcome::Done).0, "reconciling folder -4");
    assert_eq!(told(Request::SyncNow { id: None }, Outcome::Done).0, "reconciling all folders");
    assert_eq!(
        told(Request::CreatePublicLink { path: "p".into() }, Outcome::Data),
        (
            "payload".to_string(),
            Some((ActivityKind::PublicLink, "p".into(), "link created".into(), true))
        )
    );
    assert_eq!(told(Request::ListTrash, Outcome::Data), ("payload".to_string(), None));
    assert_eq!(
        told(Request::UploadPaths { parent: "p".into(), count: 2 }, Outcome::Done).0,
        "uploading 2 item(s)"
    );
    assert_eq!(
        told(Request::LeaveShared, Outcome::Done).1,
        Some((ActivityKind::Unshare, "shared item".into(), "left".into(), true))
    );
    assert!(matches!(bad_request("x").response, Response::Error(s) if s == "bad request: x"));
    assert_eq!(queued_counts(-1, 4), (0, 4));
    assert!(is_request(" \"Status\"\n"));
    assert!(!is_request("") && !is_request(" \t\n"));
}

#[test]
fn a_request_ends_only_in_its_own_ways() {
    assert!(can_end(&Request::Restore, &Outcome::Count(2)));
    assert!(!can_end(&Request::Restore, &Outcome::Done));
    assert!(can_end(&Request::ListTrash, &Outcome::Data));
    assert!(can_end(&Request::ListTrash, &Outcome::Failed("offline".into())));
    assert!(!can_end(&Request::ListTrash, &Outcome::Named("x".into())));
    let budget = Request::SetCacheBudget { bytes: 1 };
    assert!(can_end(&budget, &Outcome::Done));
    assert!(can_end(&budget, &Outcome::Unsaved("full".into())));
    let share = Request::ShareNode { path: "a".into(), role: "editor".into() };
    assert!(can_end(&share, &Outcome::Invited { proton: 1, external: 2 }));
    assert!(!can_end(&share, &Outcome::Invited { proton: u64::MAX, external: 1 }));
}

#[test]
fn background_work_is_summed_up() {
    let stats = UploadStats { uploaded: 700, bytes: 2048, folders: 1, failed: 3 };
    let a = summarize_upload(stats, "a/Photos", 61, 0);
    assert_eq!(a.target, "700 files to Photos");
    assert_eq!(a.detail, "2.0 KB · 1 folder · 1m 1s · 3 failed");
    assert!(!a.ok);
    let stats = UploadStats { uploaded: 1, bytes: 10, folders: 0, failed: 0 };
    let a = summarize_upload(stats, "", 0, 5);
    assert_eq!((a.target.as_str(), a.detail.as_str()), ("1 file to your Drive", "10 B · 5ms"));
    assert!(a.ok);
    assert_eq!(summarize_failure("bulk upload", "e").detail, "e");
    let a = summarize_added("/home/u/Music", "error", 2, 0);
    assert_eq!((a.target.as_str(), a.detail.as_str(), a.ok), ("synced Music", "2s", false));
}

#[test]
fn a_folder_is_listed_pinned_and_opened() {
    let mut st = State::new(folder("root", "root"), UidMap::new());
    let d = st.intern_mem(ROOT_INO, folder("d", "d"));
    let f = st.intern_mem(ROOT_INO, file("f", "f.txt", 9, None));
    st.set_listing(ROOT_INO, vec![d, 77, f]);
    let mut rows = list_dir(&st, ROOT_INO);
    assert_eq!(rows.len(), 2);
    assert_eq!((rows[1].name.as_str(), rows[1].size, rows[1].uid.as_str()), ("f.txt", 9, "vol~f"));
    mark_kept(&mut rows[0], true, true);
    mark_kept(&mut rows[1], false, true);
    assert!(rows[0].pinned && !rows[0].cached && rows[1].cached);
    assert!(list_dir(&st, d).is_empty());
    let mut stack = Vec::new();
    let mut files = Vec::new();
    pin_subtree(&st, ROOT_INO, &mut stack, &mut files);
    assert_eq!(stack, vec![d]);
    assert_eq!((files.len(), files[0].name.as_str()), (1, "f.txt"));
    assert_eq!(pin(&st, f).unwrap().size, 9);
    assert_eq!(pin(&st, 99).unwrap_err().message, "node vanished");
    assert_eq!(pinned_folder("d", 3), "d (3 files)");
    assert_eq!(unpin(&st, d), ("d".to_string(), true));
    assert_eq!(unpin(&st, 99), (String::new(), false));
    assert_eq!(open_file(&st, f).unwrap().name, "f.txt");
    assert_eq!(open_file(&st, d).unwrap_err().message, "not a regular file");
    assert_eq!(open_file(&st, 99).unwrap_err().kind, ErrorKind::NotFound);
    assert_eq!(open_file_uid("v~f").unwrap().link_id, "f");
    for bad in ["x", "local~1", "virtual~sharedwithme"] {
        assert_eq!(open_file_uid(bad).unwrap_err().message, format!("invalid uid: {bad}"));
    }
    let n = open_source(None, Some(file("i", "indexed", 1, None)), None).unwrap();
    assert_eq!(n.name, "indexed");
    assert!(open_source(None, None, None).is_err());
    let texts = vec!["v~a".to_string(), "bad".to_string(), "v~b".to_string()];
    assert_eq!(readable_uids(&texts).len(), 2);
}

#[test]
fn the_trash_is_listed_restored_and_emptied() {
    let p = list_trash(None, 0);
    assert!(p.refresh && p.wait);
    let p = list_trash(Some(0), 59_999);
    assert!(!p.refresh && !p.wait);
    let p = list_trash(Some(0), 60_000);
    assert!(p.refresh && !p.wait);
    let mut refreshing = false;
    assert!(spawn_trash_refresh(&mut refreshing));
    assert!(!spawn_trash_refresh(&mut refreshing));
    let mut items: Vec<StoredTrash> = Vec::new();
    refresh_trash(&mut items, &vec![file("a", "a.txt", 4, None)]);
    refresh_trash(&mut items, &vec![folder("b", "b")]);
    assert_eq!((items[0].size, items[1].is_dir), (4, true));
    let rows = trash_entries(items);
    assert_eq!(rows[0].uid, "vol~a");
    assert!(!rows[0].pinned && rows[0].path.is_empty());
    assert_eq!(parse_uids(&vec![]).unwrap_err().message, "no nodes given");
    let mixed = vec!["v~a".to_string(), "bad".to_string()];
    assert_eq!(parse_uids(&mixed).unwrap_err().message, "invalid uid: bad");
    assert_eq!(parse_uids(&vec!["v~a".to_string()]).unwrap().len(), 1);
    let mut tally = BatchTally { done: 0, refused: false };
    count_outcome(&mut tally, false);
    assert_eq!(batch_answer(tally), Err(()));
    count_outcome(&mut tally, true);
    assert_eq!(batch_answer(tally), Ok(1));
    let mut hidden = UidSet::new();
    hidden.insert(uid("a"));
    restore_node(&mut hidden, &uid("a"));
    assert!(!hidden.contains(&uid("a")));
    let mut st = State::new(folder("root", "root"), UidMap::new());
    st.intern_mem(ROOT_INO, file("f", "f", 1, None));
    st.set_listing(ROOT_INO, vec![2]);
    invalidate_children_of(&mut st, &vec![uid("root"), uid("missing")]);
    assert!(!st.has_children(ROOT_INO));
    drop_local(&mut st, &vec![uid("f")]);
    assert_eq!(st.ino_of(&uid("f")), None);
}

#[test]
fn albums_are_ordered_by_activity_then_name() {
    let album = |link: &str, name: &str, at: Option<i64>| {
        let mut n = folder(link, name);
        n.album = Some(AlbumProperties {
            photo_count: -3,
            cover_photo_uid: Some(uid("c")),
            last_activity_time: at,
        });
        n
    };
    let nodes = vec![
        album("1", "beta", Some(5)),
        album("2", "Alpha", Some(5)),
        album("3", "idle", None),
        album("4", "new", Some(9)),
    ];
    let rows = refresh_albums(&nodes, &vec!["vol~2".to_string()]);
    let names: Vec<&str> = rows.iter().map(|a| a.name.as_str()).collect();
    assert_eq!(names, vec!["new", "Alpha", "beta", "idle"]);
    assert!(rows[1].shared && !rows[0].shared);
    assert_eq!((rows[0].photo_count, rows[0].cover_uid.as_deref()), (0, Some("vol~c")));
    let bad = StoredAlbum {
        shared: false,
        uid: "u".to_string(),
        name: "n".to_string(),
        photo_count: 1,
        cover_uid: Some("bad".to_string()),
        last_activity: None,
    };
    assert_eq!(album_info(bad).cover_uid, None);
    let stored = || refresh_albums(&vec![album("1", "one", None)], &Vec::new());
    assert!(albums_answer(AlbumsPlan::NoVolume, true, stored()).is_none());
    assert!(
        albums_answer(AlbumsPlan::Fetch, false, stored()).is_none(),
        "a fetch that found no photos has nothing to tell of"
    );
    let told = albums_answer(AlbumsPlan::Fetch, true, stored()).unwrap();
    assert_eq!((told.len(), told[0].name.as_str()), (1, "one"));
    assert!(albums_answer(AlbumsPlan::Serve, false, Vec::new()).unwrap().is_empty());
    let mut refreshing = false;
    assert!(spawn_albums_refresh(&mut refreshing));
    assert!(!spawn_albums_refresh(&mut refreshing), "one refresh at a time");
    refreshing = false;
    assert!(spawn_albums_refresh(&mut refreshing) && refreshing);
    assert_eq!(albums(0, Some(0), false), AlbumsPlan::NoVolume);
    assert_eq!(albums(0, None, false), AlbumsPlan::Fetch);
    assert_eq!(albums(1, None, true), AlbumsPlan::ServeAndRefresh);
    assert_eq!(albums(1, None, false), AlbumsPlan::Serve);
    assert_eq!(album_photos(0, false), AlbumsPlan::Fetch);
    let items = vec![
        AlbumItem { uid: uid("p"), capture_time: 3 },
        AlbumItem { uid: uid("q"), capture_time: 4 },
    ];
    let rows = refresh_album(&items, &vec![file("p", "p.png", 1, None)]);
    assert_eq!(rows[0].media_type.as_deref(), Some("image/png"));
    // Two uids with one written form are one photo.
    let split = |volume: &str, link: &str| NodeUid::new(volume.to_string(), link.to_string());
    let mut odd = file("p", "odd.png", 1, None);
    odd.uid = split("a~b", "c");
    let same = refresh_album(
        &vec![AlbumItem { uid: split("a", "b~c"), capture_time: 1 }],
        &vec![odd],
    );
    assert_eq!(same[0].name.as_deref(), Some("odd.png"));
    assert_eq!((rows[1].name.as_deref(), rows[1].capture_time), (None, 4));
    let (done, failed) = album_outcome(&vec![
        PhotoOutcome { uid: uid("a"), error: None },
        PhotoOutcome { uid: uid("b"), error: Some("no".to_string()) },
    ]);
    assert_eq!(done, vec!["vol~a".to_string()]);
    assert_eq!(failed, vec![("vol~b".to_string(), "no".to_string())]);
}

#[test]
fn maintenance_runs_one_at_a_time() {
    let mut m = Maintenance { running: false, integrity: None };
    assert!(start_vacuum(&mut m).is_ok());
    assert_eq!(start_vacuum(&mut m).unwrap_err().kind, ErrorKind::Conflict);
    assert!(!start_or_read_integrity_check(&mut m).start);
    finish_vacuum(&mut m);
    let a = start_or_read_integrity_check(&mut m);
    assert!(a.start && a.running && !a.checked);
    finish_integrity_check(&mut m, Err("x".to_string()));
    assert_eq!(m.integrity.as_ref().unwrap()[0], "integrity check failed: x");
    let again = start_or_read_integrity_check(&mut m);
    assert!(again.checked && again.start && again.running && m.running);
    let meanwhile = start_or_read_integrity_check(&mut m);
    assert!(meanwhile.checked && !meanwhile.start && meanwhile.running);
}

#[test]
fn the_clock_is_told_in_both_units() {
    assert_eq!(secs_of(None), 0);
    assert_eq!(secs_of(Some((12, 999_999_999))), 12);
    assert_eq!(millis_of(Some((12, 345_678_901))), 12_345);
    assert_eq!(millis_of(None), 0);
    assert_eq!(secs_of(Some((u64::MAX, 0))), -1, "what does not fit wraps around");
    assert_eq!(millis_of(Some((u64::MAX, 0))), -1_000);
    let secs = now_secs();
    assert!(secs > 1_600_000_000);
    for millis in [now_millis(), now_ms()] {
        assert!(millis / 1000 >= secs && millis / 1000 <= secs + 60);
    }
    assert_eq!(unix_secs(5), EpochOffset::After(5));
    assert_eq!(unix_secs(-5), EpochOffset::Before(5));
    assert_eq!(unix_secs(i64::MIN), EpochOffset::Before(1 << 63));
}

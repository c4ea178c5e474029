use pdfs_fuse::access::Access;
use pdfs_fuse::events::{
    acknowledge_applied_event, advance_cursor, apply_event, event_serializes_shared_publication,
    event_write, is_foreign_node_delete, next_probe_delay, refresh_generation_is_current,
    run_local_index, DirtyParents, DriveEvent, EventOutcome, StoreWrite,
};
use pdfs_fuse::node::{Node, NodeKind};
use pdfs_fuse::self_changes::{
    note_self_change, take_self_change, SelfChange, SELF_CHANGE_TTL_MS,
};
use pdfs_fuse::state::{State, ROOT_INO};
use pdfs_fuse::uid::{parse_node_uid, NodeUid};
use pdfs_fuse::uidmap::{UidMap, UidSet};
use std::cell::Cell;

fn uid(volume: &str, link: &str) -> NodeUid {
    NodeUid::new(volume.to_string(), link.to_string())
}

fn folder(volume: &str, link: &str, parent: Option<NodeUid>, name: &str) -> Node {
    Node {
        uid: uid(volume, link),
        parent_uid: parent,
        kind: NodeKind::Folder,
        name: name.to_string(),
        creation_time: 0,
        modification_time: 0,
        trashed: false,
        is_shared: false,
        is_shared_publicly: false,
        membership: None,
        album: None,
    }
}

fn deleted(id: &str, node: NodeUid, parent: Option<NodeUid>) -> DriveEvent {
    DriveEvent::NodeDeleted { id: id.to_string(), node_uid: node, parent_node_uid: parent }
}

#[test]
fn foreign_delete_invalidates_an_earlier_refresh_generation() {
    let event = deleted("foreign-delete", uid("foreign", "child"), None);
    let mut generation: u64 = 7;
    let captured = generation;

    assert!(event_serializes_shared_publication(&event, "own"));
    generation += 1;

    assert!(!refresh_generation_is_current(captured, generation));
    let own_delete = deleted("own-delete", uid("own", "child"), None);
    assert!(!event_serializes_shared_publication(&own_delete, "own"));
}

/// A mount with a root and a shared folder with something in it.
fn shared_mount() -> (State, NodeUid, NodeUid) {
    let root = folder("own", "root", None, "My Files");
    let mut share_access = UidMap::new();
    let shared = uid("foreign", "deleted");
    share_access.insert(shared.clone(), Access::Editor);
    let mut st = State::new(root, share_access);
    let ino = st.intern_mem(
        ROOT_INO,
        folder("foreign", "deleted", Some(uid("own", "root")), "Deleted foreign"),
    );
    st.set_listing(ROOT_INO, vec![ino]);
    let deep = st.intern_mem(ino, folder("foreign", "deep", Some(shared.clone()), "Inside"));
    st.set_listing(ino, vec![deep]);
    (st, shared, uid("foreign", "deep"))
}

#[test]
fn foreign_delete_tombstones_subtree_and_advances_cursor_after_success() {
    let (st, shared, deep) = shared_mount();
    let event = deleted("foreign-delete-success", shared.clone(), Some(uid("own", "root")));
    let mut mounts = vec![st];
    let mut changes: UidMap<SelfChange> = UidMap::new();
    let mut dirty = DirtyParents::new();
    assert!(is_foreign_node_delete(&event, "own"));
    assert!(matches!(
        event_write(&event, "own"),
        StoreWrite::TombstoneForeignSubtree(u) if u == shared
    ));
    let effects = apply_event(
        &mut mounts,
        &event,
        "own",
        &mut changes,
        &UidSet::new(),
        &mut dirty,
        0,
    );
    assert!(!effects.ours);
    assert!(effects.evict);
    assert!(!mounts[0].owns_visible_uid(&shared));
    assert!(!mounts[0].owns_visible_uid(&deep));
    assert_ne!(mounts[0].access_by_uid(&deep), Some(Access::Editor));

    let cursor = Cell::new(String::new());
    let acknowledged = acknowledge_applied_event::<(), _>(&event, Ok(()), |id: &String| {
        cursor.set(id.clone());
        Ok(())
    })
    .unwrap();
    assert_eq!(acknowledged, "foreign-delete-success");
    assert_eq!(cursor.into_inner(), "foreign-delete-success");
}

#[test]
fn foreign_delete_db_failure_denies_memory_and_retains_prior_cursor() {
    let (st, shared, deep) = shared_mount();
    let event = deleted("foreign-delete-failed", shared.clone(), Some(uid("own", "root")));
    let mut mounts = vec![st];
    let mut changes: UidMap<SelfChange> = UidMap::new();
    let mut dirty = DirtyParents::new();
    // Memory is denied whatever the database answers.
    let _ = apply_event(
        &mut mounts,
        &event,
        "own",
        &mut changes,
        &UidSet::new(),
        &mut dirty,
        0,
    );
    assert!(!mounts[0].owns_visible_uid(&shared));
    assert!(!mounts[0].owns_visible_uid(&deep));

    let touched = Cell::new(false);
    let refused = acknowledge_applied_event::<&str, _>(&event, Err("tombstone"), |_: &String| {
        touched.set(true);
        Ok(())
    });
    assert_eq!(refused, Err("tombstone"));
    assert!(!touched.get(), "the cursor stays where it was");
}

#[test]
fn deleted_share_downgrade_failure_denies_memory_and_retains_cursor() {
    let mut share_access = UidMap::new();
    share_access.insert(uid("own", "shared"), Access::Editor);
    let mut st = State::new(folder("own", "root", None, "My Files"), share_access);
    st.intern_mem(ROOT_INO, folder("own", "shared", Some(uid("own", "root")), "Shared"));
    let event = deleted("event-1", uid("own", "shared"), None);
    assert!(matches!(event_write(&event, "own"), StoreWrite::DowngradeShare(_)));
    let mut mounts = vec![st];
    let mut changes: UidMap<SelfChange> = UidMap::new();
    let mut dirty = DirtyParents::new();
    let _ = apply_event(
        &mut mounts,
        &event,
        "own",
        &mut changes,
        &UidSet::new(),
        &mut dirty,
        0,
    );
    assert_ne!(mounts[0].access_by_uid(&uid("own", "shared")), Some(Access::Editor));
    assert!(acknowledge_applied_event::<(), _>(&event, Err(()), |_: &String| Ok(())).is_err());
}

#[test]
fn continuity_downgrade_failure_denies_memory_and_retains_cursor() {
    let (st, shared, deep) = shared_mount();
    let event = DriveEvent::ContinuityLost { id: "event-2".to_string() };
    assert!(matches!(event_write(&event, "own"), StoreWrite::DowngradeAllShares));
    let mut mounts = vec![st];
    let mut changes: UidMap<SelfChange> = UidMap::new();
    let mut dirty = DirtyParents::new();
    let _ = apply_event(
        &mut mounts,
        &event,
        "own",
        &mut changes,
        &UidSet::new(),
        &mut dirty,
        0,
    );
    for node in [&shared, &deep] {
        assert_eq!(mounts[0].access_by_uid(node), Some(Access::Viewer));
    }
    assert!(acknowledge_applied_event::<(), _>(&event, Err(()), |_: &String| Ok(())).is_err());
}

#[test]
fn the_cursor_stops_before_the_first_failure() {
    let batch = vec![
        ("a".to_string(), EventOutcome::Acknowledged),
        ("b".to_string(), EventOutcome::Failed),
        ("c".to_string(), EventOutcome::Acknowledged),
    ];
    assert_eq!(advance_cursor(None, &batch), Some("a".to_string()));
    let none: Vec<(String, EventOutcome)> = Vec::new();
    assert_eq!(advance_cursor(Some("z".to_string()), &none), Some("z".to_string()));
}

#[test]
fn the_probe_backs_off_and_the_index_expires() {
    assert_eq!(next_probe_delay(5), 10);
    assert_eq!(next_probe_delay(200), 300);
    assert!(run_local_index(None, 0));
    assert!(!run_local_index(Some(1_000), 1_899));
    assert!(run_local_index(Some(1_000), 1_900));
}

#[test]
fn a_self_change_is_claimed_once_and_expires() {
    let mut changes: UidMap<SelfChange> = UidMap::new();
    let uid = parse_node_uid("vol~link").unwrap();
    let other = parse_node_uid("vol~other").unwrap();
    let t0 = 1_000_000;

    assert!(
        !take_self_change(&mut changes, &uid, t0),
        "a node we never touched is never ours"
    );

    note_self_change(&mut changes, &uid, t0);
    assert!(
        take_self_change(&mut changes, &uid, t0 + 5_000),
        "the echo of our own change is claimed"
    );
    assert!(
        !take_self_change(&mut changes, &uid, t0 + 6_000),
        "and only once, so a later foreign change still applies"
    );

    note_self_change(&mut changes, &uid, t0);
    note_self_change(&mut changes, &uid, t0);
    assert!(take_self_change(&mut changes, &uid, t0 + 1));
    assert!(take_self_change(&mut changes, &uid, t0 + 2));
    assert!(!take_self_change(&mut changes, &uid, t0 + 3));

    note_self_change(&mut changes, &uid, t0);
    assert!(!take_self_change(&mut changes, &uid, t0 + SELF_CHANGE_TTL_MS));
    assert!(
        !changes.contains_key(&uid),
        "an expired change is dropped, not left to be re-tested"
    );

    note_self_change(&mut changes, &uid, t0);
    note_self_change(&mut changes, &other, t0 + SELF_CHANGE_TTL_MS);
    assert_eq!(
        changes.len(),
        1,
        "recording a change prunes the ones whose echo never came"
    );
}

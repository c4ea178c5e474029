use pdfs_fuse::access::{
    access_for, preserve_on_access_denied, public_link_info, require_node_parent_access,
    require_rename_access, require_uid_writable, role_from_str, role_to_str, uid_write_authority,
    Access, MemberRole, PublicLink, WriteAuthority,
};
use pdfs_fuse::adoption::{
    adopt_drained_name, adopt_real_uid, node_name, node_place, refresh_after_upload,
    refresh_resident, rename_in_place, root_uid, uid_is_open, AfterUpload,
};
use pdfs_fuse::children::{
    begin_children, begin_shared, ensure_children, ensure_shared_children,
    invalidate_shared_refreshes, listing_stale, shared_listing_plan, shared_listing_stale,
    ChildAction, ChildEvent, ChildStage, SharedAction, SharedEvent, SharedListingPlan, SharedStage,
};
use pdfs_fuse::error::{check_replaceable, Errno, ErrorKind};
use pdfs_fuse::hydrate::{hydrate, StoredNode};
use pdfs_fuse::listing::{
    lookup_child, plan_children, publish_listing, publish_virtual_root_in_listing,
    reconcile_virtual_root_in_listing, shared_folder_freshness_key, virtual_node, visible_nodes,
    ChildrenPlan, RootListingSnapshot, VirtualRootPlan,
};
use pdfs_fuse::namespace::{
    create_folder, forget_moved, move_outcome, original_parent, queue_local_node, queue_rename,
    queue_trash, remove_replaced, rename_needs_queue, replaced, require_name,
    resolve_anywhere_with, restore_replaced, ReplaceStep,
};
use pdfs_fuse::node::{local_node, node_visible, Node, NodeKind, ShareMembership};
use pdfs_fuse::ops::OpKind;
use pdfs_fuse::registry::{rooted_at, StateRegistry};
use pdfs_fuse::shares::{accepted_share_provenance, prepare_shared_roots, SharedWithMeItem};
use pdfs_fuse::state::{
    release_can_discard_unlinked, release_unlinked_entry, State, ROOT_INO,
};
use pdfs_fuse::uid::{
    is_local_uid, is_local_uid_str, mint_local_uid, parse_node_uid, parse_uid, shared_with_me_uid,
    NodeUid,
};
use pdfs_fuse::uidmap::{UidMap, UidSet};
use std::cell::{Cell, RefCell};

fn uid(volume: &str, link: &str) -> NodeUid {
    NodeUid::new(volume.to_string(), link.to_string())
}

fn node_in(volume: &str, id: &str, parent: Option<&str>, name: &str, is_dir: bool) -> Node {
    Node {
        uid: uid(volume, id),
        parent_uid: parent.map(|p| uid(volume, p)),
        name: name.to_string(),
        kind: if is_dir {
            NodeKind::Folder
        } else {
            NodeKind::File {
                media_type: "text/plain".into(),
                total_size_on_storage: 0,
                active_revision_id: None,
                content_sha1: None,
                claimed_size: Some(0),
                claimed_modification_time: None,
            }
        },
        creation_time: 100,
        modification_time: 100,
        trashed: false,
        is_shared: false,
        is_shared_publicly: false,
        membership: None,
        album: None,
    }
}

fn node(id: &str, parent: &str, name: &str, is_dir: bool) -> Node {
    node_in("vol", id, if parent == "none" { None } else { Some(parent) }, name, is_dir)
}

fn rooted_state(volume: &str, root_link: &str) -> State {
    State::new(node_in(volume, root_link, None, "root", true), UidMap::new())
}

#[test]
fn state_registry_walks_every_live_mount_and_reaps_the_rest() {
    let mut registry: StateRegistry<State> = StateRegistry::new();
    assert!(registry.live().is_empty(), "a fresh registry has no mounts");
    for mountpoint in ["/mnt/primary", "/mnt/fork-a", "/mnt/fork-b"] {
        registry.register(mountpoint.to_string(), rooted_state("vol", "root"), false);
    }
    assert_eq!(registry.live().len(), 3, "every registered mount is walked");

    registry.mounts[1].held = false;
    assert_eq!(registry.live().len(), 2, "an unmounted fork is dropped");
    assert_eq!(
        registry.mounts.len(),
        2,
        "and its slot is reaped, not merely skipped"
    );

    registry.mounts[0].held = false;
    registry.mounts[1].held = false;
    assert!(
        registry.live().is_empty(),
        "the last mount going away empties the registry"
    );
}

#[test]
fn state_registry_covering_uses_longest_prefix_and_ignores_dead_forks() {
    let mut registry: StateRegistry<State> = StateRegistry::new();
    let primary_path = "/home/me/ProtonDrive";
    let nested_path = "/home/me/ProtonDrive/Device";
    let sibling_path = "/home/me/Archive";
    let primary_uid = uid("primary-volume", "primary");
    registry.register(primary_path.to_string(), rooted_state("primary-volume", "primary"), false);
    registry.register(nested_path.to_string(), rooted_state("nested-volume", "nested"), false);
    registry.register(sibling_path.to_string(), rooted_state("sibling-volume", "sibling"), true);
    assert_eq!(registry.live().len(), 3);
    assert!(!registry.is_mounted_at(primary_path));
    assert!(!registry.is_mounted_at(nested_path));
    assert!(
        !registry.owns_visible_uid(&primary_uid),
        "an unspawned session must not authorize resident uids"
    );
    assert!(
        registry.covering("/home/me/ProtonDrive/Device/folder/file.txt").is_none(),
        "a registered but unspawned session must not win path covering"
    );
    registry.mounts[0].session_live = true;
    registry.mounts[1].session_live = true;
    assert!(registry.owns_visible_uid(&primary_uid));

    let covering = |r: &StateRegistry<State>, path: &str| {
        r.covering(path).map(|i| r.mounts[i].mountpoint.clone())
    };
    assert_eq!(
        covering(&registry, "/home/me/ProtonDrive/Device/folder/file.txt").as_deref(),
        Some(nested_path)
    );
    assert_eq!(
        covering(&registry, nested_path).as_deref(),
        Some(nested_path),
        "an exact mountpoint covers itself"
    );
    assert_eq!(
        covering(&registry, "/home/me/ProtonDrive/Device/folder/").as_deref(),
        Some(nested_path),
        "a trailing separator does not change component-prefix selection"
    );
    assert_eq!(
        covering(&registry, "/home/me/ProtonDrive/DeviceBackup/file").as_deref(),
        Some(primary_path),
        "/Device must not string-prefix-match /DeviceBackup"
    );
    assert_eq!(
        covering(&registry, "/home/me/Archive/file").as_deref(),
        Some(sibling_path)
    );
    assert!(
        registry.covering("/home/me/ProtonDriveBackup/file").is_none(),
        "/ProtonDrive must not string-prefix-match /ProtonDriveBackup"
    );
    assert!(
        registry.covering("/tmp/outside").is_none(),
        "an outside path has no covering mount"
    );
    assert!(registry.is_mounted_at(primary_path));
    assert!(registry.is_mounted_at(nested_path));
    assert!(
        !registry.is_mounted_at("/home/me/ProtonDrive/Device/folder"),
        "a path covered by a session is not itself a mountpoint"
    );

    registry.mounts[1].held = false;
    assert!(!registry.is_mounted_at(nested_path));
    assert_eq!(registry.live().len(), 2);
}

#[test]
fn covering_parts_route_a_path_to_the_mount_that_owns_it() {
    let mut registry: StateRegistry<State> = StateRegistry::new();
    let primary_path = "/home/me/ProtonDrive";
    let nested_path = "/home/me/ProtonDrive/Device";
    registry.register(primary_path.to_string(), rooted_state("primary-volume", "primary"), true);
    registry.register(nested_path.to_string(), rooted_state("nested-volume", "nested"), true);

    let (i, rest) = rooted_at(&registry, "/home/me/ProtonDrive/Device/sub/file.txt")
        .expect("nested mount covers");
    assert_eq!(registry.mounts[i].mountpoint, nested_path, "the nested mount wins");
    assert!(
        registry.mounts[i].state.ino_of(&uid("nested-volume", "nested")).is_some(),
        "the request must be answered in the nested inode space"
    );
    assert_eq!(
        rest,
        vec!["sub".to_string(), "file.txt".to_string()],
        "the suffix is relative to the mount that owns it, not the primary"
    );

    let (i, _) = rooted_at(&registry, "/home/me/ProtonDrive/Documents").expect("primary covers");
    assert_eq!(
        registry.mounts[i].mountpoint, primary_path,
        "a path outside the nested root still routes to the primary"
    );
    assert!(
        rooted_at(&registry, "/tmp/outside").is_none(),
        "a path under no mount routes nowhere, and the caller reports that"
    );
}

#[test]
fn state_registry_resolves_uids_from_any_resident_mount() {
    let mut registry: StateRegistry<State> = StateRegistry::new();
    let mut fork = rooted_state("device-volume", "device");
    let fork_uid = uid("device-volume", "fork");
    let fork_ino =
        fork.intern_mem(ROOT_INO, node_in("device-volume", "fork", Some("device"), "fork", true));
    fork.set_listing(ROOT_INO, vec![fork_ino]);
    registry.register("/mnt/primary".to_string(), rooted_state("primary-volume", "primary"), true);
    registry.register("/mnt/device".to_string(), fork, true);

    assert!(registry.owns_visible_uid(&uid("primary-volume", "primary")));
    assert!(registry.owns_visible_uid(&fork_uid));
    assert!(!registry.owns_visible_uid(&parse_uid("device-volume~missing").unwrap()));

    registry.mounts[1].held = false;
    assert!(
        !registry.owns_visible_uid(&fork_uid),
        "an unmounted on-demand state must stop authorizing its uids"
    );
}

#[test]
fn state_registry_treats_missing_listing_as_unknown_not_absent() {
    let mut registry: StateRegistry<State> = StateRegistry::new();
    let mut state = rooted_state("device-volume", "device");
    let child_uid = uid("device-volume", "child");
    let child_ino = state.intern_mem(
        ROOT_INO,
        node_in("device-volume", "child", Some("device"), "child.txt", false),
    );
    state.set_listing(ROOT_INO, vec![child_ino]);
    registry.register("/mnt/device".to_string(), state, true);

    assert!(registry.owns_visible_uid(&child_uid));

    registry.mounts[0].state.invalidate_listing(ROOT_INO);
    assert!(
        registry.owns_visible_uid(&child_uid),
        "an invalidated listing is unknown and must not hide a valid resident child"
    );

    registry.mounts[0].state.set_listing(ROOT_INO, Vec::new());
    assert!(
        !registry.owns_visible_uid(&child_uid),
        "a present listing that omits the child proves it is no longer visible"
    );
}

#[test]
fn virtual_root_reconcile_does_not_recreate_an_invalidated_listing() {
    let mut registry: StateRegistry<State> = StateRegistry::new();
    let mut state = rooted_state("primary-volume", "root");
    let root_uid = uid("primary-volume", "root");
    let child_uid = uid("primary-volume", "child");
    let child_ino = state.intern_mem(
        ROOT_INO,
        node_in("primary-volume", "child", Some("root"), "child.txt", false),
    );
    state.set_listing(ROOT_INO, vec![child_ino]);

    let snapshot = RootListingSnapshot::capture(&state, ROOT_INO).unwrap();
    assert_eq!(snapshot.real_names(), vec!["child.txt".to_string()]);

    // An event wins the race before virtual-root dentry publication.
    state.invalidate_listing(ROOT_INO);
    let virtual_ino =
        state.intern_mem(ROOT_INO, virtual_node(root_uid, "Shared with me".into(), 0));
    assert!(
        !reconcile_virtual_root_in_listing(&mut state, ROOT_INO, &snapshot, virtual_ino, true),
        "the invalidated snapshot must not publish"
    );
    assert!(
        !state.has_children(ROOT_INO),
        "reconciliation must leave an invalidated listing absent"
    );

    registry.register("/mnt/device".to_string(), state, true);
    assert!(
        registry.owns_visible_uid(&child_uid),
        "the absent listing remains unknown until refresh, so a valid resident uid is allowed"
    );
}

#[test]
fn virtual_root_reconcile_rejects_repopulated_changed_snapshot() {
    let mut state = rooted_state("primary-volume", "root");
    let root_uid = uid("primary-volume", "root");
    let child_ino = state.intern_mem(
        ROOT_INO,
        node_in("primary-volume", "child", Some("root"), "child.txt", false),
    );
    state.set_listing(ROOT_INO, vec![child_ino]);
    let stale_snapshot = RootListingSnapshot::capture(&state, ROOT_INO).unwrap();

    state.invalidate_listing(ROOT_INO);
    state.entries.get_mut(&child_ino).unwrap().node.name = "Shared with me".into();
    state.set_listing(ROOT_INO, vec![child_ino]);
    let replacement_snapshot = RootListingSnapshot::capture(&state, ROOT_INO).unwrap();
    assert!(!stale_snapshot.is_current(&state, ROOT_INO));
    assert_eq!(replacement_snapshot.real_names(), vec!["Shared with me".to_string()]);

    let persisted = Cell::new(false);
    let stale_plan = VirtualRootPlan {
        node: virtual_node(root_uid.clone(), "Shared with me".into(), 0),
        visible: true,
    };
    let error = publish_virtual_root_in_listing(
        |_: &Node| {
            persisted.set(true);
            true
        },
        &mut state,
        ROOT_INO,
        &stale_snapshot,
        stale_plan,
    )
    .unwrap_err();
    assert_eq!(
        error,
        Errno::Again,
        "stale work must fail before persistence or dentry publication"
    );
    assert_eq!(
        state.children[&ROOT_INO],
        vec![child_ino],
        "the replacement listing must remain untouched"
    );
    assert!(!persisted.get(), "stale work must not change persisted visibility");

    let virtual_ino =
        state.intern_mem(ROOT_INO, virtual_node(root_uid, "Shared with me".into(), 0));
    state.set_listing(ROOT_INO, vec![child_ino, virtual_ino]);
    let current_snapshot = RootListingSnapshot::capture(&state, ROOT_INO).unwrap();
    state.entries.get_mut(&virtual_ino).unwrap().node.trashed = false;
    assert!(
        reconcile_virtual_root_in_listing(
            &mut state,
            ROOT_INO,
            &current_snapshot,
            virtual_ino,
            false,
        ),
        "the synthetic node's own visibility update must not stale the real-child snapshot"
    );
    assert_eq!(state.children[&ROOT_INO], vec![child_ino]);
}

#[test]
fn virtual_root_publication_failure_is_atomic_and_leaves_state_unchanged() {
    let mut state = rooted_state("primary-volume", "root");
    let root_uid = uid("primary-volume", "root");
    let child_ino = state.intern_mem(
        ROOT_INO,
        node_in("primary-volume", "child", Some("root"), "child.txt", false),
    );
    state.set_listing(ROOT_INO, vec![child_ino]);
    let snapshot = RootListingSnapshot::capture(&state, ROOT_INO).unwrap();
    let entries_before = state.entries.len();
    let by_uid_before = state.by_uid.len();
    let next_ino_before = state.next_ino;
    let access_before = state.share_access.len();
    let result = publish_virtual_root_in_listing(
        |_: &Node| false,
        &mut state,
        ROOT_INO,
        &snapshot,
        VirtualRootPlan {
            node: virtual_node(root_uid, "Shared with me".into(), 0),
            visible: true,
        },
    );

    assert_eq!(result.unwrap_err(), Errno::Io);
    assert!(
        snapshot.is_current(&state, ROOT_INO),
        "the resident listing must not change on DB failure"
    );
    assert_eq!(state.entries.len(), entries_before);
    assert_eq!(state.by_uid.len(), by_uid_before);
    assert_eq!(state.next_ino, next_ino_before);
    assert_eq!(state.share_access.len(), access_before);
    assert!(
        !state.by_uid.contains_key(&shared_with_me_uid()),
        "the synthetic inode must not be interned before commit"
    );
}

#[test]
fn state_registry_rejects_open_unlinked_and_revoked_residents() {
    let mut registry: StateRegistry<State> = StateRegistry::new();
    let mut state = rooted_state("device-volume", "device");
    let open_uid = uid("device-volume", "open");
    let open_ino = state.intern_mem(
        ROOT_INO,
        node_in("device-volume", "open", Some("device"), "open.txt", false),
    );
    state.entries.get_mut(&open_ino).unwrap().open_count = 1;
    let revoked_uid = uid("device-volume", "revoked");
    let revoked_ino = state.intern_mem(
        ROOT_INO,
        node_in("device-volume", "revoked", Some("device"), "revoked", true),
    );
    let child_uid = uid("device-volume", "revoked-child");
    let child_ino = state.intern_mem(
        revoked_ino,
        node_in("device-volume", "revoked-child", Some("revoked"), "child.txt", false),
    );
    state.set_listing(ROOT_INO, vec![open_ino, revoked_ino]);
    state.set_listing(revoked_ino, vec![child_ino]);
    registry.register("/mnt/device".to_string(), state, true);
    assert!(registry.owns_visible_uid(&open_uid));
    assert!(registry.owns_visible_uid(&child_uid));

    registry.mounts[0].state.unlink_mem(&open_uid);
    assert!(
        !registry.owns_visible_uid(&open_uid),
        "an open inode retained after unlink is not addressable"
    );

    registry.mounts[0].state.hide_shared_root(&revoked_uid);
    assert!(!registry.owns_visible_uid(&revoked_uid));
    assert!(
        !registry.owns_visible_uid(&child_uid),
        "a retained descendant beneath a revoked root is not reachable"
    );
}

#[test]
fn state_registry_rejects_foreign_broken_and_cyclic_residents() {
    let mut registry: StateRegistry<State> = StateRegistry::new();
    let mut state = rooted_state("own-volume", "root");
    let foreign_uid = uid("foreign-volume", "shared");
    let foreign_ino = state.intern_mem(
        ROOT_INO,
        node_in("foreign-volume", "shared", Some("root"), "shared", true),
    );
    let broken_uid = uid("own-volume", "broken");
    state.intern_mem(ROOT_INO, node_in("own-volume", "broken", Some("root"), "broken", true));
    let cycle_a_uid = uid("own-volume", "cycle-a");
    let cycle_a =
        state.intern_mem(ROOT_INO, node_in("own-volume", "cycle-a", Some("root"), "a", true));
    let cycle_b =
        state.intern_mem(cycle_a, node_in("own-volume", "cycle-b", Some("cycle-a"), "b", true));
    let cycle_a_entry = state.entries.get_mut(&cycle_a).unwrap();
    cycle_a_entry.parent = cycle_b;
    cycle_a_entry.node.parent_uid = Some(uid("own-volume", "cycle-b"));
    state.set_listing(ROOT_INO, vec![foreign_ino]);
    state.set_listing(cycle_a, vec![cycle_b]);
    state.set_listing(cycle_b, vec![cycle_a]);
    registry.register("/mnt/device".to_string(), state, true);

    assert!(
        !registry.owns_visible_uid(&foreign_uid),
        "incoming-share residents are outside the mounted root's volume"
    );
    assert!(
        !registry.owns_visible_uid(&broken_uid),
        "an interned node without a visible parent dentry is not reachable"
    );
    assert!(
        !registry.owns_visible_uid(&cycle_a_uid),
        "a cyclic resident parent chain is not reachable"
    );
}

#[test]
fn resolve_anywhere_prefers_resident_state_then_falls_back_to_mirror() {
    let resident = resolve_anywhere_with(
        "vol~resident",
        |_: &NodeUid| true,
        |_: &NodeUid| panic!("resident uid must not query mirror bookkeeping"),
    )
    .unwrap();
    assert_eq!(resident.to_text(), "vol~resident");

    let mirror =
        resolve_anywhere_with("vol~mirror", |_: &NodeUid| false, |_: &NodeUid| Ok(true)).unwrap();
    assert_eq!(mirror.to_text(), "vol~mirror");
}

#[test]
fn resolve_anywhere_classifies_invalid_missing_and_db_errors() {
    for raw_uid in ["not-a-uid", "~link", "vol~", "vol~link~extra"] {
        let invalid = resolve_anywhere_with(
            raw_uid,
            |_: &NodeUid| panic!("invalid uid must not query live state"),
            |_: &NodeUid| panic!("invalid uid must not query mirror bookkeeping"),
        )
        .unwrap_err();
        assert_eq!(invalid.kind, ErrorKind::Invalid, "{raw_uid}");
    }

    for raw_uid in ["local~pending", "virtual~sharedwithme"] {
        let reserved = resolve_anywhere_with(
            raw_uid,
            |_: &NodeUid| panic!("reserved uid must not query live state"),
            |_: &NodeUid| panic!("reserved uid must not query mirror bookkeeping"),
        )
        .unwrap_err();
        assert_eq!(reserved.kind, ErrorKind::Invalid, "{raw_uid}");
    }

    let missing =
        resolve_anywhere_with("vol~missing", |_: &NodeUid| false, |_: &NodeUid| Ok(false))
            .unwrap_err();
    assert_eq!(missing.kind, ErrorKind::NotFound);

    let db_error = resolve_anywhere_with(
        "vol~db",
        |_: &NodeUid| false,
        |_: &NodeUid| Err("lookup failed".to_string()),
    )
    .unwrap_err();
    assert_eq!(db_error.kind, ErrorKind::Internal);
    assert!(db_error.message.contains("lookup failed"));
}

#[test]
fn local_trash_tombstones_hide_stale_remote_entries() {
    let folder_uid = uid("vol", "folder");
    let child = node("child", "folder", "child", false);
    assert!(node_visible(&child, &folder_uid, &UidSet::new()));
    let mut hidden = UidSet::new();
    hidden.insert(child.uid.clone());
    assert!(!node_visible(&child, &folder_uid, &hidden));
}

fn require_uid_access(persisted: Option<Access>, live: &[Access]) -> Result<(), Errno> {
    require_uid_writable(uid_write_authority(Ok(persisted), &live.to_vec()))
}

#[test]
fn denied_queue_guard_preserves_accepted_bytes_and_pending_count() {
    let preserved = Cell::new(false);
    let result = preserve_on_access_denied(
        require_uid_access(Some(Access::Viewer), &[Access::Viewer]),
        true,
        || preserved.set(true),
    );
    assert_eq!(result.unwrap_err(), Errno::Acces);
    assert!(preserved.get(), "accepted bytes must enter recovery");

    let untouched = Cell::new(false);
    assert!(preserve_on_access_denied(Ok(()), true, || untouched.set(true)).is_ok());
    assert!(
        !untouched.get(),
        "a permitted write must continue to the normal queue path"
    );

    // The same fail-closed rule applies before hydration and to a stale UID.
    assert_eq!(require_uid_access(Some(Access::Viewer), &[]).unwrap_err(), Errno::Acces);
    assert_eq!(require_uid_access(None, &[]).unwrap_err(), Errno::Acces);
    assert_eq!(
        uid_write_authority(Ok(None), &Vec::new()),
        WriteAuthority::Unknown,
        "a uid the tree has no row for is unknown, not denied"
    );
    assert_eq!(
        uid_write_authority(Ok(Some(Access::Viewer)), &Vec::new()),
        WriteAuthority::Denied,
        "a uid the tree knows and refuses is denied"
    );
}

#[test]
fn persisted_and_live_queue_authorities_must_both_be_writable() {
    assert_eq!(
        require_uid_access(Some(Access::Viewer), &[Access::Editor]).unwrap_err(),
        Errno::Acces,
        "a persisted downgrade must beat stale writable live state"
    );
    assert_eq!(
        require_uid_access(Some(Access::Editor), &[Access::Viewer]).unwrap_err(),
        Errno::Acces,
        "a live downgrade must beat restored writable persisted state"
    );
    assert!(require_uid_access(Some(Access::Editor), &[Access::Editor]).is_ok());
}

#[test]
fn shared_listing_provenance_must_agree_before_editor_is_granted() {
    let root = uid("foreign", "root");
    let parent = shared_with_me_uid();
    let item = |share: &str| SharedWithMeItem { uid: root.clone(), share_id: share.to_string() };
    let materialized = |share: Option<&str>, role: Option<MemberRole>| {
        let mut n = node("root", "none", "Shared", true);
        n.uid = root.clone();
        n.membership = share.map(|s| ShareMembership { share_id: s.to_string(), role });
        n
    };

    let accepted = accepted_share_provenance(&vec![item("share-a"), item("share-a")]);
    assert_eq!(
        prepare_shared_roots(
            &accepted,
            &vec![materialized(Some("share-a"), Some(MemberRole::Editor))],
            &parent
        )[0]
        .access,
        Access::Editor
    );
    for n in [
        materialized(None, Some(MemberRole::Editor)),
        materialized(Some("share-b"), Some(MemberRole::Editor)),
        materialized(Some("share-a"), None),
    ] {
        assert_eq!(prepare_shared_roots(&accepted, &vec![n], &parent)[0].access, Access::Viewer);
    }

    let conflicting = accepted_share_provenance(&vec![item("share-a"), item("share-b")]);
    assert_eq!(
        prepare_shared_roots(
            &conflicting,
            &vec![materialized(Some("share-a"), Some(MemberRole::Editor))],
            &parent
        )[0]
        .access,
        Access::Viewer,
        "duplicate UID provenance disagreement must fail closed"
    );
}

#[test]
fn virtual_bulk_upload_destination_is_denied_by_runtime_authority() {
    let mut share_access = UidMap::new();
    share_access.insert(shared_with_me_uid(), Access::Viewer);
    let mut state = State::new(node("root", "none", "My Files", true), share_access);
    let mut n = node("sharedwithme", "root", "Shared with me", true);
    n.uid = shared_with_me_uid();
    state.intern_mem(ROOT_INO, n);
    let live = state.access_by_uid(&shared_with_me_uid()).unwrap();
    assert_eq!(live, Access::Viewer);
    assert_eq!(require_uid_access(Some(Access::Viewer), &[live]).unwrap_err(), Errno::Acces);
}

#[test]
fn replacement_rename_authorizes_source_and_both_parents() {
    let checked = RefCell::new(Vec::new());
    require_rename_access(
        |u: &NodeUid| {
            checked.borrow_mut().push(u.to_text());
            Ok(())
        },
        &uid("vol", "source"),
        &uid("vol", "old"),
        &uid("vol", "new"),
    )
    .unwrap();
    assert_eq!(checked.into_inner(), vec!["vol~source", "vol~old", "vol~new"]);
}

#[test]
fn writable_nested_node_cannot_mutate_a_viewer_parent_namespace() {
    let source = uid("vol", "nested-editor");
    let viewer_parent = uid("vol", "viewer-parent");
    let destination = uid("vol", "destination");
    let access = |u: &NodeUid| if *u == viewer_parent { Err(Errno::Acces) } else { Ok(()) };

    assert_eq!(
        require_node_parent_access(access, &source, &viewer_parent).unwrap_err(),
        Errno::Acces,
        "delete must authorize the source namespace"
    );
    assert_eq!(
        require_rename_access(access, &source, &viewer_parent, &destination).unwrap_err(),
        Errno::Acces,
        "rename and move must authorize the original parent"
    );
}

#[test]
fn test_posix_unlink_and_rmdir_checks() {
    let mut st = State::new(node("parent_uid", "none", "parent", true), UidMap::new());
    let folder_child =
        st.intern_mem(ROOT_INO, node("folder_child", "parent_uid", "subfolder", true));
    let file_child = st.intern_mem(ROOT_INO, node("file_child", "parent_uid", "file.txt", false));
    st.set_listing(ROOT_INO, vec![folder_child, file_child]);
    assert!(st.entries[&folder_child].node.is_folder(), "folder_child is a folder");
    assert!(!st.entries[&file_child].node.is_folder(), "file_child is a file");
    assert!(st.has_children(ROOT_INO), "parent is not empty");
}

#[test]
fn queued_trash_of_open_file_survives_last_release_until_atomic_completion() {
    let mut state = State::new(node("parent", "none", "parent", true), UidMap::new());
    let trashed = uid("vol", "open-trash");
    let ino = state.intern_mem(ROOT_INO, node("open-trash", "parent", "dirty.txt", false));
    state.set_listing(ROOT_INO, vec![ino]);
    state.entries.get_mut(&ino).unwrap().open_count = 1;
    let mut pending: UidMap<u8> = UidMap::new();
    pending.insert(trashed.clone(), 1);
    let mut hidden = UidSet::new();
    let mut mounts = vec![state];
    let refused = queue_trash(
        Err(Errno::Acces),
        || panic!("the access gate precedes the database"),
        &mut pending,
        &mut hidden,
        &mut mounts,
        &trashed,
    );
    assert_eq!(refused, Err(Errno::Acces));
    let unwritten =
        queue_trash(Ok(()), || false, &mut pending, &mut hidden, &mut mounts, &trashed);
    assert_eq!(unwritten, Err(Errno::Io));
    assert!(pending.contains_key(&trashed) && !hidden.contains(&trashed));
    assert!(!mounts[0].entries[&ino].unlinked);
    queue_trash(Ok(()), || true, &mut pending, &mut hidden, &mut mounts, &trashed).unwrap();
    assert!(!pending.contains_key(&trashed) && hidden.contains(&trashed));

    let mut state = mounts.remove(0);
    assert!(state.entries[&ino].unlinked);
    assert!(!state.children[&ROOT_INO].contains(&ino));

    let released = release_unlinked_entry(&mut state, ino).unwrap();
    assert_eq!(released, trashed);
    assert!(!state.by_uid.contains_key(&trashed));
    assert!(
        !release_can_discard_unlinked(Ok(true)),
        "last release keeps persisted drain authority"
    );
}

#[test]
fn queued_trash_lookup_failure_conservatively_retains_unlinked_state() {
    assert!(
        !release_can_discard_unlinked(Err(())),
        "database uncertainty must retain the tombstone and authority row"
    );
    assert!(release_can_discard_unlinked(Ok(false)));
}

#[test]
fn a_file_may_replace_a_file() {
    assert!(check_replaceable(false, false, true).is_ok());
}

#[test]
fn an_empty_directory_may_be_replaced_by_a_directory() {
    assert!(check_replaceable(true, true, true).is_ok());
}

#[test]
fn a_non_empty_directory_is_never_replaced() {
    let e = check_replaceable(true, true, false).expect_err("must refuse");
    assert_eq!(e, Errno::Notempty);
}

#[test]
fn the_two_ends_must_agree_on_being_a_directory() {
    assert_eq!(
        check_replaceable(false, true, true).expect_err("a file may not replace a directory"),
        Errno::Isdir
    );
    assert_eq!(
        check_replaceable(true, false, true).expect_err("a directory may not replace a file"),
        Errno::Notdir
    );
}

#[test]
fn emptiness_is_ignored_when_the_destination_is_a_file() {
    assert!(check_replaceable(false, false, false).is_ok());
}

#[test]
fn a_minted_uid_is_recognisable_and_round_trips() {
    let minted = mint_local_uid(1_700_000_000_000, 4);
    assert!(is_local_uid(&minted));
    assert!(is_local_uid_str(&minted.to_text()));
    let parsed = parse_node_uid(&minted.to_text()).expect("parses back");
    assert_eq!(parsed, minted);
}

#[test]
fn minted_uids_are_distinct_within_a_run() {
    let a = mint_local_uid(1_700_000_000_000, 0);
    let b = mint_local_uid(1_700_000_000_000, 1);
    assert_ne!(a, b);
}

#[test]
fn a_real_uid_is_never_mistaken_for_a_placeholder() {
    assert!(!is_local_uid(&uid("vol1", "link1")));
    assert!(!is_local_uid_str("vol1~link1"));
    // Not a uid at all.
    assert!(!is_local_uid_str("local"));
    // The sentinel is the *volume*; a link that merely says "local" is real.
    assert!(!is_local_uid_str("vol1~local"));
}

#[test]
fn a_placeholder_file_reports_itself_as_empty_and_unsealed() {
    let parent = uid("vol1", "dir");
    let n = local_node(mint_local_uid(5, 0), parent.clone(), "notes.txt".into(), false, 9);
    assert_eq!(n.name, "notes.txt");
    assert_eq!(n.parent_uid, Some(parent));
    assert!(!n.trashed);
    match n.kind {
        NodeKind::File { claimed_size, active_revision_id, ref media_type, .. } => {
            assert_eq!(claimed_size, Some(0));
            // Nothing has been uploaded, so there is no sealed revision.
            assert!(active_revision_id.is_none());
            assert_eq!(media_type, "text/plain");
        }
        NodeKind::Folder => panic!("expected a file"),
    }
}

#[test]
fn a_placeholder_folder_is_a_folder() {
    let n = local_node(mint_local_uid(5, 0), uid("vol1", "root"), "photos".into(), true, 9);
    assert!(n.is_folder());
}

#[test]
fn online_combined_cross_directory_rename_stays_synchronous() {
    assert!(!rename_needs_queue(true, false, true, true));
    assert!(rename_needs_queue(false, false, false, true));
    assert!(rename_needs_queue(true, true, true, false));
}

#[test]
fn one_step_online_namespace_changes_stay_synchronous() {
    assert!(!rename_needs_queue(true, false, false, true));
    assert!(!rename_needs_queue(true, false, true, false));
    assert!(!rename_needs_queue(true, false, false, false));
}

#[test]
fn an_invented_node_and_a_queued_rename_carry_their_rows() {
    let parent = uid("vol", "p");
    let (op, n) =
        queue_local_node(Ok(()), &parent, &"a.txt".to_string(), false, true, 77, 5, 2, 9).unwrap();
    assert_eq!(op.uid, n.uid.to_text());
    assert_eq!((op.kind, op.next_attempt_at, op.name.as_deref()), (OpKind::Create, 77, Some("a.txt")));
    assert_eq!(
        queue_local_node(Err(Errno::Acces), &parent, &"a".to_string(), true, false, 0, 0, 0, 0)
            .unwrap_err(),
        Errno::Acces
    );
    let allow = |_: &NodeUid| Ok(());
    let op = queue_rename(
        allow,
        &uid("vol", "f"),
        &uid("vol", "a"),
        &uid("vol", "b"),
        "n".to_string(),
        "{}".to_string(),
        3,
    )
    .unwrap();
    assert_eq!((op.kind, op.parent_uid.as_deref()), (OpKind::Rename, Some("vol~b")));
    let deny = |u: &NodeUid| if u.link_id == "a" { Err(Errno::Acces) } else { Ok(()) };
    assert!(queue_rename(
        deny,
        &uid("vol", "f"),
        &uid("vol", "a"),
        &uid("vol", "b"),
        "n".to_string(),
        "{}".to_string(),
        3,
    )
    .is_err());
    assert_eq!(original_parent(Ok(None), &parent).unwrap(), "vol~p");
    assert_eq!(original_parent(Ok(Some("x".to_string())), &parent).unwrap(), "x");
    assert_eq!(original_parent(Err(()), &parent).unwrap_err(), Errno::Io);
}

#[test]
fn names_are_refused_and_replaced_nodes_are_cleared() {
    assert!(require_name("ok").is_ok());
    assert_eq!(require_name("").unwrap_err().message, "invalid name: \"\"");
    assert_eq!(require_name("a/b").unwrap_err().message, "invalid name: \"a/b\"");
    let local = uid("local", "1");
    assert_eq!(remove_replaced(&local, Err(Errno::Acces)), ReplaceStep::DiscardQueued);
    assert_eq!(remove_replaced(&uid("v", "1"), Ok(())), ReplaceStep::Trash);
    assert_eq!(
        remove_replaced(&uid("v", "1"), Err(Errno::Acces)),
        ReplaceStep::Refuse(Errno::Acces)
    );
    assert_eq!(replaced(false, Ok(())), Err(Errno::Io));
    assert_eq!(replaced(true, Ok(())), Ok(()));
    assert!(restore_replaced(Some(&uid("v", "1"))));
    assert!(!restore_replaced(Some(&local)) && !restore_replaced(None));
    assert_eq!(
        move_outcome(&uid("v", "1"), None).unwrap_err(),
        "move of v~1 reported no outcome"
    );
    assert!(move_outcome(&uid("v", "1"), Some(Ok(()))).is_ok());
}

#[test]
fn a_landed_creation_keeps_its_inode() {
    let mut st = rooted_state("vol", "root");
    let dir = st.intern_mem(ROOT_INO, node("dir", "root", "dir", true));
    let local = mint_local_uid(1, 1);
    let mut placeholder = node("x", "root", "new.txt", false);
    placeholder.uid = local.clone();
    let ino = st.intern_mem(ROOT_INO, placeholder);
    st.set_listing(ROOT_INO, vec![dir, ino]);
    st.set_listing(dir, vec![]);
    st.entries.get_mut(&ino).unwrap().open_count = 2;
    assert!(uid_is_open(&st, &local));
    let landed = node("landed", "dir", "new.txt", false);
    adopt_real_uid(&mut st, &local, &uid("vol", "landed"), &landed);
    assert_eq!(st.ino_of(&uid("vol", "landed")), Some(ino));
    assert_eq!(st.ino_of(&local), None);
    assert_eq!(st.entries[&ino].open_count, 2);
    assert_eq!(st.entries[&ino].parent, dir, "the remote says where it landed");
    assert_eq!(st.children[&ROOT_INO], vec![dir]);
    assert_eq!(st.children[&dir], vec![ino]);
    assert!(adopt_drained_name(&mut st, &uid("vol", "landed"), &"other.txt".to_string()));
    assert_eq!(st.entries[&ino].node.name, "other.txt");
    assert!(!adopt_drained_name(&mut st, &uid("vol", "missing"), &"x".to_string()));
    rename_in_place(&mut st, ino, ROOT_INO, &uid("vol", "root"), &"back.txt".to_string());
    assert_eq!(st.children[&ROOT_INO], vec![dir, ino]);
    assert_eq!(st.entries[&ino].node.name, "back.txt");
    assert!(st.children[&dir].is_empty());
}

#[test]
fn a_node_is_placed_by_any_mount_then_by_its_row() {
    let a = rooted_state("vol", "root");
    let mut b = rooted_state("vol", "root");
    b.intern_mem(ROOT_INO, node("f", "root", "f.txt", false));
    let place = node_place(&vec![&a, &b], &uid("vol", "f"), &None);
    assert_eq!(place.as_ref().unwrap().1, "f.txt");
    assert_eq!(node_name(&place, &uid("vol", "f")), "f.txt");
    let row = Some(node("g", "root", "g.txt", false));
    assert_eq!(node_place(&vec![&a, &b], &uid("vol", "g"), &row).unwrap().1, "g.txt");
    assert!(node_place(&vec![&a, &b], &uid("vol", "h"), &None).is_none());
    assert_eq!(node_name(&None, &uid("vol", "abcdefghij")), "recovered-abcdefgh");
    assert_eq!(node_name(&None, &uid("vol", "ab")), "recovered-ab");
    assert_eq!(root_uid(&a), Some(uid("vol", "root")));
    assert_eq!(refresh_after_upload(false, false), AfterUpload::Nothing);
    assert_eq!(refresh_after_upload(true, true), AfterUpload::Rebase);
    assert_eq!(refresh_after_upload(true, false), AfterUpload::RebaseAndRefresh);
    let mut fresh = node("f", "root", "f2.txt", false);
    fresh.modification_time = 55;
    refresh_resident(&mut b, &uid("vol", "f"), &fresh);
    let ino = b.ino_of(&uid("vol", "f")).unwrap();
    assert_eq!(b.entries[&ino].node.modification_time, 55);
}

#[test]
fn a_created_folder_appears_and_a_moved_node_is_forgotten() {
    let mut st = rooted_state("vol", "root");
    st.set_listing(ROOT_INO, vec![]);
    let ino = create_folder(&mut st, ROOT_INO, node("d", "root", "d", true));
    assert_eq!(st.children[&ROOT_INO], vec![ino]);
    assert_eq!(forget_moved(&mut st, &uid("vol", "d")), "d");
    assert_eq!(forget_moved(&mut st, &uid("vol", "d")), "");
    assert!(st.children[&ROOT_INO].is_empty());
}

#[test]
fn a_listing_is_published_once() {
    let mut st = rooted_state("vol", "root");
    let root = uid("vol", "root");
    assert!(matches!(
        plan_children(&st, ROOT_INO, true, &root, true, true),
        ChildrenPlan::Load { primary_root: true, foreign: false, .. }
    ));
    assert!(matches!(plan_children(&st, 99, true, &root, true, true), ChildrenPlan::Missing));
    let mut unsized_file = node("f", "root", "f", false);
    if let NodeKind::File { claimed_size, .. } = &mut unsized_file.kind {
        *claimed_size = None;
    }
    let mut hidden = UidSet::new();
    hidden.insert(uid("vol", "h"));
    let nodes = visible_nodes(
        vec![unsized_file, node("h", "root", "h", false), node("d", "root", "d", true)],
        &UidMap::new(),
        &root,
        &hidden,
        false,
    );
    assert_eq!(nodes.len(), 2);
    assert_eq!(publish_listing(&mut st, ROOT_INO, nodes), Some(vec![uid("vol", "f")]));
    assert_eq!(publish_listing(&mut st, ROOT_INO, vec![]), None);
    assert_eq!(lookup_child(&st, ROOT_INO, "d").unwrap().1, uid("vol", "d"));
    assert_eq!(lookup_child(&st, ROOT_INO, "q").unwrap_err(), Errno::Noent);
    assert_eq!(shared_folder_freshness_key(&root), "shared_folder_synced_ms:vol~root");
}

#[test]
fn a_listing_is_brought_in_step_by_step() {
    let root = uid("vol", "root");
    let load = ChildrenPlan::Load { folder: root.clone(), primary_root: true, foreign: false };
    let (stage, action) = begin_children(&load, 1);
    assert_eq!(action, ChildAction::ReadRows);
    let (remote, action) = ensure_children(stage, ChildEvent::Rows(false));
    assert_eq!(action, ChildAction::AskRemote);
    assert_eq!(
        ensure_children(remote, ChildEvent::Remote { ok: false, generation: 1 }).1,
        ChildAction::Fail(Errno::Io)
    );
    let offline = ChildrenPlan::Load {
        folder: uid("foreign", "folder"),
        primary_root: false,
        foreign: true,
    };
    let (foreign, _) = begin_children(&offline, 1);
    let (foreign, action) = ensure_children(foreign, ChildEvent::Rows(false));
    assert_eq!(action, ChildAction::AskRemote);
    assert_eq!(
        ensure_children(foreign, ChildEvent::Remote { ok: false, generation: 1 }).1,
        ChildAction::Fail(Errno::Io),
        "a shared folder that was never listed cannot be opened offline"
    );
    let (stage, action) =
        ensure_children(remote, ChildEvent::Remote { ok: true, generation: 1 });
    assert_eq!(action, ChildAction::Publish { without_virtual: false });
    let (stage, action) = ensure_children(stage, ChildEvent::Published(true));
    assert_eq!(action, ChildAction::ReconcileVirtual { listed: true });
    assert_eq!(
        ensure_children(stage, ChildEvent::Virtual(None)).1,
        ChildAction::Done { listed: false, fresh: false, sizes: true }
    );
    assert_eq!(
        ensure_children(stage, ChildEvent::Virtual(Some(Errno::Again))).1,
        ChildAction::Fail(Errno::Again)
    );
    assert_eq!(begin_children(&ChildrenPlan::Missing, 1).1, ChildAction::Fail(Errno::Noent));
    assert_eq!(begin_children(&ChildrenPlan::SharedRoot, 1).1, ChildAction::SharedRoot);
    let refresh = ChildrenPlan::Enumerate { folder: root, primary_root: false, foreign: true };
    let (stage, action) = begin_children(&refresh, 4);
    assert_eq!(action, ChildAction::AskRemote);
    assert_eq!(
        ensure_children(stage, ChildEvent::Remote { ok: true, generation: 5 }),
        (ChildStage::Over, ChildAction::Fail(Errno::Again)),
        "a refresh from before an event is thrown away"
    );
    let (stage, action) = ensure_children(stage, ChildEvent::Remote { ok: true, generation: 4 });
    assert_eq!(action, ChildAction::StoreForeign);
    let (stage, action) = ensure_children(stage, ChildEvent::Stored(true));
    assert_eq!(action, ChildAction::LoadForeign);
    let (stage, action) = ensure_children(stage, ChildEvent::Stored(true));
    assert_eq!(action, ChildAction::PublishForeign);
    assert_eq!(
        ensure_children(stage, ChildEvent::Published(true)).1,
        ChildAction::Done { listed: false, fresh: true, sizes: true }
    );
}

#[test]
fn what_others_share_is_refreshed_or_recalled() {
    assert_eq!(shared_listing_plan(true, true, true), SharedListingPlan::Refresh);
    assert_eq!(shared_listing_plan(true, false, true), SharedListingPlan::Resident);
    assert_eq!(shared_listing_plan(false, false, true), SharedListingPlan::Persisted);
    assert!(!shared_listing_stale(true, None, 0));
    assert!(shared_listing_stale(false, None, 0));
    assert!(!shared_listing_stale(false, Some(1_000), 60_999));
    assert!(shared_listing_stale(false, Some(1_000), 61_000));
    assert!(listing_stale(Some(i64::MIN), i64::MAX, 5));
    assert_eq!(invalidate_shared_refreshes(u64::MAX), 0);
    let (stage, action) = begin_shared(SharedListingPlan::Refresh, 3);
    assert_eq!(action, SharedAction::AskShares);
    let (nodes, action) = ensure_shared_children(
        stage,
        SharedEvent::Shares { ok: true, any: true, generation: 3 },
    );
    assert_eq!(action, SharedAction::AskNodes);
    let (rows, action) =
        ensure_shared_children(nodes, SharedEvent::Nodes { ok: true, generation: 3 });
    assert_eq!(action, SharedAction::StoreRows);
    assert_eq!(
        ensure_shared_children(rows, SharedEvent::Stored(false)),
        (SharedStage::Over, SharedAction::Reject(Errno::Io))
    );
    let (snapshot, _) = ensure_shared_children(rows, SharedEvent::Stored(true));
    assert_eq!(
        ensure_shared_children(snapshot, SharedEvent::Stored(true)).1,
        SharedAction::PublishRefreshed
    );
    assert_eq!(
        ensure_shared_children(nodes, SharedEvent::Nodes { ok: true, generation: 4 }).1,
        SharedAction::Fail(Errno::Again)
    );
    assert_eq!(
        ensure_shared_children(SharedStage::AwaitPersisted, SharedEvent::Persisted(true)).1,
        SharedAction::PublishPersisted
    );
}

#[test]
fn a_restart_rebuilds_the_tree() {
    let mut st = rooted_state("vol", "root");
    let stored = vec![
        StoredNode { node: node_in("vol", "root", None, "root", true), listed: true },
        StoredNode { node: node("a", "root", "a", false), listed: false },
        StoredNode { node: node("gone", "root", "gone", false), listed: false },
    ];
    let mut hidden = UidSet::new();
    hidden.insert(uid("vol", "gone"));
    let mut sizes = UidMap::new();
    sizes.insert(uid("vol", "a"), 12u64);
    let known = st.entries[&ROOT_INO].access;
    hydrate(&mut st, &Vec::new(), &sizes, &hidden);
    assert_eq!(st.entries[&ROOT_INO].access, known, "nothing is resolved from nothing");
    hydrate(&mut st, &stored, &sizes, &hidden);
    let ino = st.ino_of(&uid("vol", "a")).unwrap();
    assert_eq!(st.children[&ROOT_INO], vec![ino]);
    assert_eq!(pdfs_fuse::node::node_size(&st.entries[&ino].node), 12);
    assert_eq!(st.ino_of(&uid("vol", "gone")), None);
}

#[test]
fn roles_and_links_are_told() {
    assert_eq!(role_from_str("EDITOR").unwrap(), MemberRole::Editor);
    assert_eq!(role_from_str("inherited").unwrap_err().message, "invalid role: inherited");
    assert_eq!(role_to_str(MemberRole::Admin), "admin");
    assert_eq!(access_for(MemberRole::Viewer, Access::Owner), Access::Viewer);
    let info = public_link_info(PublicLink {
        id: "i".to_string(),
        url: "u".to_string(),
        role: MemberRole::Viewer,
        expires: Some(4),
        has_password: true,
    });
    assert_eq!((info.role.as_str(), info.expires, info.has_password), ("viewer", Some(4), true));
}

use pdfs_fuse::devices::{
    add_sync_folder, adopt_device, adopted_device_uid, device_root, device_type_str, ensure_device,
    find_device_child_folder, jobs_snapshot, list_devices, list_location, publish_rejection,
    rename_device, restore_source, sync_folder_info, this_hostname, DeviceType, EnsureDevice,
    JobItem, MountKind, MountSpec, RemoteDevice, StoredDevice, SyncPhase, SyncProgress,
};
use pdfs_fuse::error::ErrorKind;
use pdfs_fuse::modes::{
    apply_sync_folder_mode, commit_after_teardown, mode_reply, pending_intent_matches,
    recheck_mode, remove_sync_folder, remote_root, request_sync_folder_mode, reread_matches,
    restore_begin, restore_ondemand_mounts, restore_snapshot_matches, select_mode_transition,
    settle_pending_mode, settled, switch_done, switch_error, switch_step, sync_now,
    ApplicableMountMode, ModeRecheck, ModeReply, ModeRequest, RestoreStage, RestoreStep, Settled,
    SettleStep, StoredSyncFolder, SwitchAction, SwitchBlocked, SwitchPlan, SwitchStage,
    SyncRequest,
};
use pdfs_fuse::node::{Node, NodeKind};
use pdfs_fuse::progress::Passes;
use pdfs_fuse::uid::NodeUid;

#[test]
fn unknown_mode_cannot_select_a_destructive_transition() {
    let mut unmounts = 0;
    let mut baseline_clears = 0;
    let mut mode_writes = 0;
    if let Ok(mode) = ApplicableMountMode::parse("streaming") {
        match mode {
            ApplicableMountMode::Mirror => {
                unmounts += 1;
                baseline_clears += 1;
                mode_writes += 1;
            }
            ApplicableMountMode::OnDemand => {
                mode_writes += 1;
            }
        }
    }
    assert_eq!((unmounts, baseline_clears, mode_writes), (0, 0, 0));
    assert_eq!(
        ApplicableMountMode::parse("streaming"),
        Err("unknown mode \"streaming\" (want mirror|ondemand)".to_string())
    );
    assert_eq!(
        ApplicableMountMode::parse("mirror"),
        Ok(ApplicableMountMode::Mirror)
    );
    assert_eq!(
        ApplicableMountMode::parse("ondemand"),
        Ok(ApplicableMountMode::OnDemand)
    );
}

#[test]
fn unknown_source_mode_with_pending_mirror_cannot_select_a_transition() {
    let mut destructive_helper_reached = false;
    let selected = select_mode_transition("streaming", "mirror");
    if let Ok(Some(_)) = selected {
        destructive_helper_reached = true;
    }

    assert!(!destructive_helper_reached);
    assert_eq!(
        selected,
        Err(
            "unsupported current mode: unknown mode \"streaming\" (want mirror|ondemand)"
                .to_string()
        )
    );
}

fn folder(local_path: &str, remote_uid: &str, mode: &str) -> StoredSyncFolder {
    StoredSyncFolder {
        id: 7,
        local_path: local_path.to_string(),
        remote_uid: remote_uid.to_string(),
        remote_share_id: "share".to_string(),
        mode: mode.to_string(),
        pending_mode: None,
        state: "idle".to_string(),
        last_sync: 0,
    }
}

#[test]
fn stale_restore_identity_or_mode_is_rejected() {
    let snapshot = folder("/mnt/folder", "volume~node", "ondemand");
    assert!(restore_snapshot_matches(
        &snapshot,
        &folder("/mnt/folder", "volume~node", "ondemand")
    ));
    assert!(!restore_snapshot_matches(
        &snapshot,
        &folder("/mnt/replaced", "volume~node", "ondemand")
    ));
    assert!(!restore_snapshot_matches(
        &snapshot,
        &folder("/mnt/folder", "volume~other", "ondemand")
    ));
    assert!(!restore_snapshot_matches(
        &snapshot,
        &folder("/mnt/folder", "volume~node", "mirror")
    ));
}

#[test]
fn teardown_failure_prevents_follow_up_state_changes() {
    let mut commits = 0;
    let result = commit_after_teardown::<_, &str, _>(Err("busy"), || {
        commits += 1;
    });
    assert_eq!(result, Err("busy"));
    assert_eq!(commits, 0);

    commit_after_teardown::<_, &str, _>(Ok(()), || commits += 1).unwrap();
    assert_eq!(commits, 1);
}

#[test]
fn canceled_or_replaced_queued_intent_cannot_transition() {
    assert!(pending_intent_matches(Some("ondemand"), Some("ondemand")));
    assert!(!pending_intent_matches(None, Some("ondemand")));
    assert!(!pending_intent_matches(Some("mirror"), Some("ondemand")));
    assert!(pending_intent_matches(Some("mirror"), None));
}

#[test]
fn a_mode_request_is_refused_in_order() {
    let e = request_sync_folder_mode(3, "x", &None, false).unwrap_err();
    assert_eq!(e.kind, ErrorKind::Invalid);
    let e = request_sync_folder_mode(3, "mirror", &None, false).unwrap_err();
    assert_eq!((e.kind, e.message.as_str()), (ErrorKind::NotFound, "no synced folder with id 3"));
    let strange = Some(folder("/a", "v~n", "x"));
    let e = request_sync_folder_mode(3, "mirror", &strange, false).unwrap_err();
    assert_eq!(
        e.message,
        "unsupported current mode: unknown mode \"x\" (want mirror|ondemand)"
    );
    let mirrored = Some(folder("/a", "v~n", "mirror"));
    let e = request_sync_folder_mode(3, "ondemand", &mirrored, true).unwrap_err();
    assert_eq!(e.message, "this folder is paused; resume it before changing its mode");
    assert_eq!(
        request_sync_folder_mode(3, "ondemand", &mirrored, false),
        Ok(ModeRequest::Apply(ApplicableMountMode::OnDemand))
    );
    assert_eq!(
        request_sync_folder_mode(3, "mirror", &mirrored, true),
        Ok(ModeRequest::Recheck(ApplicableMountMode::Mirror))
    );
}

#[test]
fn a_request_for_the_present_mode_withdraws_or_queues() {
    let mode = ApplicableMountMode::Mirror;
    assert!(matches!(recheck_mode(7, mode, &None), Ok(ModeRecheck::Queue(s)) if s == "staying mirror"));
    assert!(recheck_mode(7, mode, &Some(None)).is_err());
    let f = folder("/a", "v~n", "mirror");
    assert!(
        matches!(recheck_mode(7, mode, &Some(Some(f))), Ok(ModeRecheck::Withdraw(s)) if s == "already mirror")
    );
    let mut f = folder("/a", "v~n", "mirror");
    f.pending_mode = Some("ondemand".to_string());
    assert!(
        matches!(recheck_mode(7, mode, &Some(Some(f))), Ok(ModeRecheck::Withdraw(s)) if s == "staying mirror")
    );
    let f = folder("/a", "v~n", "ondemand");
    assert!(matches!(recheck_mode(7, mode, &Some(Some(f))), Ok(ModeRecheck::Apply)));
    let f = folder("/a", "v~n", "odd");
    assert_eq!(recheck_mode(7, mode, &Some(Some(f))).unwrap_err().kind, ErrorKind::Invalid);
}

#[test]
fn a_blocked_switch_is_queued_and_a_broken_one_is_told() {
    let on = ApplicableMountMode::OnDemand;
    assert!(matches!(
        mode_reply(Err(SwitchBlocked::NotNow), on, "/home/u/Music"),
        Ok(ModeReply::Queue(s)) if s == "Music will go on-demand once its local changes are uploaded"
    ));
    assert!(matches!(
        mode_reply(Err(SwitchBlocked::NotNow), ApplicableMountMode::Mirror, "/home/u/Music"),
        Ok(ModeReply::Queue(s)) if s == "Music will start mirroring once the current sync finishes"
    ));
    assert_eq!(
        mode_reply(Err(SwitchBlocked::Superseded), on, "/a").unwrap_err().kind,
        ErrorKind::Internal
    );
    assert_eq!(
        mode_reply(Err(SwitchBlocked::Failed("boom".to_string())), on, "/a").unwrap_err().message,
        "boom"
    );
    assert!(matches!(settled(Ok("done".to_string()), "/a"), Settled::Log(s) if s == "done"));
    assert!(matches!(settled(Err(SwitchBlocked::NotNow), "/a"), Settled::Waiting));
    assert!(matches!(settled(Err(SwitchBlocked::Superseded), "/a"), Settled::Replaced));
    assert!(matches!(
        settled(Err(SwitchBlocked::Failed("e".to_string())), "/x/a"),
        Settled::Withdraw { subject, detail } if subject == "couldn't switch a" && detail == "e"
    ));
}

#[test]
fn a_queued_mode_is_settled_only_when_it_is_a_switch() {
    let mut f = folder("/a", "v~n", "mirror");
    assert_eq!(settle_pending_mode(&None), SettleStep::Nothing);
    f.pending_mode = Some("mirror".to_string());
    assert_eq!(settle_pending_mode(&Some(f)), SettleStep::Withdraw);
    let mut f = folder("/a", "v~n", "mirror");
    f.pending_mode = Some("odd".to_string());
    assert_eq!(settle_pending_mode(&Some(f)), SettleStep::Withdraw);
    let mut f = folder("/a", "v~n", "mirror");
    f.pending_mode = Some("ondemand".to_string());
    assert_eq!(
        settle_pending_mode(&Some(f)),
        SettleStep::Apply(ApplicableMountMode::OnDemand)
    );
}

#[test]
fn a_switch_is_planned_under_the_lock() {
    let on = ApplicableMountMode::OnDemand;
    assert!(matches!(apply_sync_folder_mode(7, on, &None, None), Err(SwitchBlocked::NotNow)));
    assert!(matches!(
        apply_sync_folder_mode(7, on, &Some(None), None),
        Err(SwitchBlocked::Failed(s)) if s == "no synced folder with id 7"
    ));
    let f = Some(Some(folder("/a", "v~n", "mirror")));
    assert!(matches!(
        apply_sync_folder_mode(7, on, &f, Some("ondemand")),
        Err(SwitchBlocked::Superseded)
    ));
    assert!(matches!(
        apply_sync_folder_mode(7, on, &f, None),
        Ok(SwitchPlan::ToOnDemand(u)) if u.link_id == "n"
    ));
    let mut busy = folder("/a", "v~n", "mirror");
    busy.state = "syncing".to_string();
    assert!(matches!(
        apply_sync_folder_mode(7, on, &Some(Some(busy)), None),
        Err(SwitchBlocked::NotNow)
    ));
    assert!(matches!(
        apply_sync_folder_mode(7, on, &Some(Some(folder("/a", "bad", "mirror"))), None),
        Err(SwitchBlocked::Failed(s)) if s == "bad remote uid: bad"
    ));
    assert!(matches!(
        apply_sync_folder_mode(7, on, &Some(Some(folder("/a", "v~n", "ondemand"))), None),
        Ok(SwitchPlan::Already(s)) if s == "already ondemand"
    ));
    assert!(matches!(
        apply_sync_folder_mode(
            7,
            ApplicableMountMode::Mirror,
            &Some(Some(folder("/a", "v~n", "ondemand"))),
            None
        ),
        Ok(SwitchPlan::ToMirror)
    ));
}

#[test]
fn the_mode_is_written_before_the_tree_is_evicted() {
    let (stage, action) = switch_step(SwitchStage::AwaitRoot, true);
    assert_eq!(action, SwitchAction::WriteOnDemand);
    let (stage, action) = switch_step(stage, true);
    assert_eq!(action, SwitchAction::Evict);
    let (stage, action) = switch_step(stage, false);
    assert_eq!(action, SwitchAction::Spawn, "eviction need not succeed");
    let (stage, action) = switch_step(stage, true);
    assert_eq!(action, SwitchAction::Publish);
    assert_eq!(switch_step(stage, true).1, SwitchAction::DoneOnDemand);
    assert_eq!(
        switch_step(SwitchStage::AwaitOnDemandMode, false).1,
        SwitchAction::Fail { mark_error: false }
    );
    assert_eq!(
        switch_step(SwitchStage::AwaitTeardown, false).1,
        SwitchAction::Fail { mark_error: true }
    );
    let (stage, action) = switch_step(SwitchStage::AwaitTeardown, true);
    assert_eq!(action, SwitchAction::ClearBaseline);
    let (stage, action) = switch_step(stage, true);
    assert_eq!(action, SwitchAction::WriteMirror);
    assert_eq!(switch_step(stage, true).1, SwitchAction::DoneMirror);
    assert_eq!(
        switch_error(SwitchStage::AwaitTeardown, "/a", "busy"),
        "unmount /a failed; folder remains on-demand: busy"
    );
    assert_eq!(
        switch_error(SwitchStage::AwaitSpawn, "/a", "e"),
        "mount ondemand failed after local cache eviction; switch back to mirror to restore it: e"
    );
    assert_eq!(switch_error(SwitchStage::AwaitBaseline, "/a", "e"), "db: e");
    assert_eq!(switch_done(ApplicableMountMode::OnDemand, "/a"), "/a is now on-demand");
    assert_eq!(
        switch_done(ApplicableMountMode::Mirror, "/a"),
        "/a is mirroring again; downloading"
    );
    assert_eq!(remote_root::<u8>(Ok(None)), Err("remote folder not found".to_string()));
    assert_eq!(
        remote_root::<u8>(Err("x".to_string())),
        Err("fetch remote root: x".to_string())
    );
    assert_eq!(remote_root(Ok(Some(1u8))), Ok(1));
}

#[test]
fn a_mount_is_restored_only_over_an_empty_directory() {
    let f = folder("/a", "v~n", "ondemand");
    let (step, uid) = restore_begin(&f);
    assert_eq!(step, RestoreStep::Go(RestoreStage::Fetched));
    assert_eq!(uid.unwrap().link_id, "n");
    assert_eq!(restore_begin(&folder("/a", "v~n", "mirror")).0, RestoreStep::Skip);
    assert_eq!(restore_begin(&folder("/a", "bad", "ondemand")).0, RestoreStep::MarkIfCurrent);
    assert_eq!(
        restore_ondemand_mounts(RestoreStage::Empty, true),
        RestoreStep::Go(RestoreStage::Spawned)
    );
    assert_eq!(restore_ondemand_mounts(RestoreStage::Empty, false), RestoreStep::MarkError);
    assert_eq!(restore_ondemand_mounts(RestoreStage::Directory, false), RestoreStep::MarkError);
    assert_eq!(restore_ondemand_mounts(RestoreStage::Reread, false), RestoreStep::Skip);
    assert_eq!(restore_ondemand_mounts(RestoreStage::Published, true), RestoreStep::MarkIdle);
    assert_eq!(restore_ondemand_mounts(RestoreStage::Published, false), RestoreStep::Skip);
    assert!(reread_matches(&f, &Some(folder("/a", "v~n", "ondemand"))));
    assert!(!reread_matches(&f, &None));
}

#[test]
fn a_folder_is_removed_only_after_its_mount() {
    let f = Some(folder("/a", "v~n", "ondemand"));
    assert!(remove_sync_folder(7, &f, None).is_ok());
    assert_eq!(
        remove_sync_folder(7, &f, Some("busy")).unwrap_err().message,
        "cannot remove synced folder: unmount /a failed: busy"
    );
    assert_eq!(remove_sync_folder(7, &None, None).unwrap_err().kind, ErrorKind::NotFound);
    assert_eq!(sync_now(Some(2)), SyncRequest::Reconcile(2));
    assert_eq!(sync_now(None), SyncRequest::ReconcileAll);
}

fn device(uid: &str, name: Option<&str>, device_type: DeviceType) -> RemoteDevice {
    RemoteDevice {
        uid: uid.to_string(),
        share_id: format!("share-{uid}"),
        root_uid: format!("vol~{uid}"),
        name: name.map(str::to_string),
        device_type,
        created: 5,
        last_sync: Some(9),
    }
}

#[test]
fn this_machine_is_found_by_pin_then_row_then_name() {
    let devices = vec![
        device("w", Some("box"), DeviceType::Windows),
        device("a", Some("box"), DeviceType::Linux),
        device("b", Some("box"), DeviceType::Linux),
    ];
    let pin = Some("b".to_string());
    assert!(matches!(
        ensure_device(&devices, &pin, &None, "host"),
        Ok(EnsureDevice::Store(s)) if s.uid == "b" && s.name == "box" && s.share_id == "share-b"
    ));
    let lost = Some("zz".to_string());
    assert_eq!(
        ensure_device(&devices, &lost, &None, "host").unwrap_err().message,
        "adopted device zz not found in this account; run `pdfs devices adopt --clear` to return to hostname matching"
    );
    let row = Some(StoredDevice {
        uid: "a".to_string(),
        share_id: String::new(),
        root_uid: String::new(),
        name: String::new(),
        created: 0,
    });
    assert!(matches!(ensure_device(&devices, &None, &row, "box"), Ok(EnsureDevice::Keep)));
    assert!(matches!(
        ensure_device(&devices, &None, &None, "box"),
        Ok(EnsureDevice::Store(s)) if s.uid == "a"
    ));
    assert!(matches!(ensure_device(&devices, &None, &None, "other"), Ok(EnsureDevice::Create)));
}

#[test]
fn devices_are_listed_adopted_and_named() {
    let devices = vec![device("a", None, DeviceType::MacOs), device("b", Some("n"), DeviceType::Linux)];
    let listed = list_devices(&devices, &Some("a".to_string()), &Some("b".to_string()));
    assert!(listed[0].this_device && !listed[0].adopted);
    assert_eq!(listed[0].name, "(unnamed device)");
    assert_eq!(listed[0].device_type, "MacOs");
    assert!(!listed[1].this_device && listed[1].adopted);
    assert_eq!(listed[1].last_sync, Some(9));
    let (stored, told) = adopt_device(&devices, "a", "host").unwrap();
    assert_eq!((stored.name.as_str(), told.as_str()), ("host", "adopted device host"));
    assert_eq!(
        adopt_device(&devices, "q", "host").unwrap_err().message,
        "no device q in this account"
    );
    assert_eq!(restore_source(&devices, "a").unwrap().name, "(unnamed device)");
    assert_eq!(restore_source(&devices, "q").unwrap_err().kind, ErrorKind::NotFound);
    assert!(rename_device("x").is_ok());
    assert_eq!(rename_device("").unwrap_err().message, "device name must not be empty");
    assert_eq!(device_type_str(DeviceType::Windows), "Windows");
    assert_eq!(adopted_device_uid(&Some("  ".to_string())), None);
    assert_eq!(adopted_device_uid(&Some(" u\n".to_string())), Some("u".to_string()));
    assert_eq!(this_hostname(&Some("box\n".to_string())), "box");
    assert_eq!(this_hostname(&None), "Linux device");
    let root = device_root(&stored).unwrap();
    assert_eq!((root.volume_id.as_str(), root.link_id.as_str()), ("vol", "a"));
    let bad = StoredDevice { root_uid: "x".to_string(), ..stored };
    assert_eq!(device_root(&bad).unwrap_err().message, "bad device root uid: x");
}

fn node(link: &str, name: &str, is_dir: bool, trashed: bool) -> Node {
    Node {
        uid: NodeUid::new("vol".to_string(), link.to_string()),
        parent_uid: None,
        kind: if is_dir {
            NodeKind::Folder
        } else {
            NodeKind::File {
                media_type: String::new(),
                total_size_on_storage: 0,
                active_revision_id: None,
                claimed_size: None,
                claimed_modification_time: None,
                content_sha1: None,
            }
        },
        name: name.to_string(),
        creation_time: 0,
        modification_time: 0,
        trashed,
        is_shared: false,
        is_shared_publicly: false,
        membership: None,
        album: None,
    }
}

#[test]
fn a_synced_folder_lands_on_the_one_of_its_name() {
    let nodes = vec![
        node("1", "Music", false, false),
        node("2", "Music", true, true),
        node("3", "Music", true, false),
        node("4", "Music", true, false),
    ];
    assert_eq!(find_device_child_folder(&nodes, "Music").unwrap().link_id, "3");
    assert!(find_device_child_folder(&nodes, "Other").is_none());
    let folders = vec![folder("/home/u/Music", "v~n", "mirror")];
    assert_eq!(add_sync_folder("/home/u/Pics", true, &folders, ".p").unwrap(), "Pics");
    assert_eq!(
        add_sync_folder("/home/u/Pics", false, &folders, ".p").unwrap_err().message,
        "/home/u/Pics is not a directory"
    );
    assert_eq!(
        add_sync_folder("/home/u/Music", true, &folders, ".p").unwrap_err().message,
        "/home/u/Music is already synced"
    );
    assert_eq!(
        add_sync_folder("/", true, &folders, ".p").unwrap_err().message,
        "unusable folder name: /"
    );
    assert_eq!(
        add_sync_folder("/home/u/.p", true, &folders, ".p").unwrap_err().message,
        ".p is reserved for this device's profile backup"
    );
}

#[test]
fn running_passes_are_jobs_in_order() {
    let mut passes = Passes::new();
    passes.progress_begin(9);
    passes.progress_scan_total(9, 3);
    passes.progress_scanned(9, &"x".to_string());
    let scan = passes.live[&9].clone();
    passes.progress_queued(9, 4);
    assert_eq!(passes.live[&9].phase, SyncPhase::Applying);
    assert_eq!((passes.live[&9].done, passes.live[&9].total), (0, 4));
    passes.progress_started(9, &"y".to_string());
    assert_eq!(passes.live[&9].current, "y");
    passes.progress_finished(9);
    assert_eq!(passes.live[&9].done, 1);
    assert_eq!(passes.live[&9].current, "");
    let applying = passes.live[&9].clone();
    passes.progress_end(9);
    assert!(passes.live.is_empty());

    let first = JobItem {
        title: "t".to_string(),
        detail: String::new(),
        done: 0,
        total: 0,
    };
    let grown = SyncProgress { done: 9, ..applying };
    let jobs = jobs_snapshot(
        vec![first],
        vec![(5, grown), (2, scan)],
        &vec![(2, "/home/u/Old".to_string()), (2, "/home/u/Music".to_string())],
    );
    assert_eq!(jobs.len(), 3);
    assert_eq!(jobs[1].title, "Checking Music");
    assert_eq!((jobs[1].detail.as_str(), jobs[1].done, jobs[1].total), ("Looking for changes", 1, 3));
    assert_eq!(jobs[2].title, "Syncing folder");
    assert_eq!((jobs[2].done, jobs[2].total), (9, 9));
}

#[test]
fn rejected_mounts_and_live_locations_are_told() {
    assert_eq!(publish_rejection(true, None), "daemon is shutting down");
    assert_eq!(
        publish_rejection(false, Some("x")),
        "folder already has a live mount; rejected mount teardown failed: x"
    );
    let info = sync_folder_info(folder("/a", "v~n", "mirror"), None, true);
    assert!(info.paused && info.progress.is_none() && info.id == 7);
    let mut at = MountSpec {
        local_path: "/a".to_string(),
        kind: MountKind::Primary,
        mounted: false,
        paused: false,
        progress: None,
    };
    list_location(&mut at, true, None, true);
    assert!(at.mounted && !at.paused, "only a synced folder is paused");
    at.kind = MountKind::Device { sync_folder_id: 1 };
    list_location(&mut at, false, None, true);
    assert!(!at.mounted && at.paused);
}

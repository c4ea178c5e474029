//! Moving a synced folder between its two modes.
//!
//! A mirrored folder is a real local tree; an on-demand one is a mount over the
//! same path with nothing behind it. Switching deletes or rebuilds the local tree,
//! so an unknown mode never selects a switch, the mode is written before the tree
//! is evicted, and a mount that cannot be taken down stops the way back.

use crate::error::{CoreError, ErrorKind};
use crate::paths::{base_name, base_name_of};
use crate::text::{
    concat2, concat3, concat4, debug_quoted, quoted, same_text, signed_decimal, signed_decimal_text,
};
use crate::uid::{parse_uid, uid_written, NodeUid};
use vstd::prelude::*;

verus! {

/// A mode that can be applied.
#[derive(Debug, Clone, Copy, PartialEq, Eq, Structural)]
pub enum ApplicableMountMode {
    Mirror,
    OnDemand,
}

/// The mode that a text names.
pub open spec fn mode_named(value: Seq<char>) -> Option<ApplicableMountMode> {
    if value == "mirror"@ {
        Some(ApplicableMountMode::Mirror)
    } else if value == "ondemand"@ {
        Some(ApplicableMountMode::OnDemand)
    } else {
        None
    }
}

/// How an unknown mode is refused.
pub open spec fn unknown_mode(value: Seq<char>) -> Seq<char> {
    "unknown mode "@ + debug_quoted(value) + " (want mirror|ondemand)"@
}

/// The text that names a mode.
pub open spec fn mode_text(mode: ApplicableMountMode) -> Seq<char> {
    match mode {
        ApplicableMountMode::Mirror => "mirror"@,
        ApplicableMountMode::OnDemand => "ondemand"@,
    }
}

impl ApplicableMountMode {
    /// Read a mode. Anything that is not one of the two is refused.
    pub fn parse(value: &str) -> (r: Result<ApplicableMountMode, String>)
        ensures
            match r {
                Ok(mode) => mode_named(value@) == Some(mode),
                Err(e) => mode_named(value@) is None && e@ == unknown_mode(value@),
            },
    {
        if same_text(value, "mirror") {
            return Ok(ApplicableMountMode::Mirror);
        }
        if same_text(value, "ondemand") {
            proof {
                reveal_strlit("mirror");
                reveal_strlit("ondemand");
            }
            return Ok(ApplicableMountMode::OnDemand);
        }
        Err(concat3("unknown mode ", quoted(value).as_str(), " (want mirror|ondemand)"))
    }

    /// The text that names the mode.
    pub fn as_str(self) -> (r: &'static str)
        ensures
            r@ == mode_text(self),
    {
        match self {
            ApplicableMountMode::Mirror => "mirror",
            ApplicableMountMode::OnDemand => "ondemand",
        }
    }
}

/// A mode is read back as it was written.
pub proof fn law_modes_round_trip(mode: ApplicableMountMode)
    ensures
        mode_named(mode_text(mode)) == Some(mode),
{
    reveal_strlit("mirror");
    reveal_strlit("ondemand");
    assert("mirror"@.len() != "ondemand"@.len());
}

/// How it is told that a folder is in no known mode.
pub open spec fn unsupported_current(value: Seq<char>) -> Seq<char> {
    "unsupported current mode: "@ + unknown_mode(value)
}

/// The switch from `current` to `target`: none where they are the same, and a
/// refusal where one of them is unknown.
pub fn select_mode_transition(current: &str, target: &str) -> (r: Result<
    Option<ApplicableMountMode>,
    String,
>)
    ensures
        match r {
            Ok(None) => mode_named(current@) is Some && mode_named(current@) == mode_named(target@),
            Ok(Some(mode)) => {
                &&& mode_named(target@) == Some(mode)
                &&& mode_named(current@) is Some
                &&& mode_named(current@) != mode_named(target@)
            },
            Err(e) => if mode_named(current@) is None {
                e@ == unsupported_current(current@)
            } else {
                mode_named(target@) is None && e@ == "unsupported target mode: "@ + unknown_mode(
                    target@,
                )
            },
        },
{
    let from = match ApplicableMountMode::parse(current) {
        Err(e) => {
            return Err(concat2("unsupported current mode: ", e.as_str()));
        },
        Ok(m) => m,
    };
    let to = match ApplicableMountMode::parse(target) {
        Err(e) => {
            return Err(concat2("unsupported target mode: ", e.as_str()));
        },
        Ok(m) => m,
    };
    if from == to {
        Ok(None)
    } else {
        Ok(Some(to))
    }
}

/// A synced folder as it is stored.
#[derive(Debug)]
pub struct StoredSyncFolder {
    pub id: i64,
    pub local_path: String,
    pub remote_uid: String,
    pub remote_share_id: String,
    pub mode: String,
    pub pending_mode: Option<String>,
    pub state: String,
    pub last_sync: i64,
}

/// Whether `current` is still the on-demand folder that `snapshot` was.
pub open spec fn still_the_same(snapshot: StoredSyncFolder, current: StoredSyncFolder) -> bool {
    &&& current.id == snapshot.id
    &&& current.local_path@ == snapshot.local_path@
    &&& current.remote_uid@ == snapshot.remote_uid@
    &&& current.remote_share_id@ == snapshot.remote_share_id@
    &&& current.mode@ == "ondemand"@
}

/// Whether `current` is still the on-demand folder that `snapshot` was.
pub fn restore_snapshot_matches(snapshot: &StoredSyncFolder, current: &StoredSyncFolder) -> (r:
    bool)
    ensures
        r == still_the_same(*snapshot, *current),
{
    current.id == snapshot.id && same_text(
        current.local_path.as_str(),
        snapshot.local_path.as_str(),
    ) && same_text(current.remote_uid.as_str(), snapshot.remote_uid.as_str()) && same_text(
        current.remote_share_id.as_str(),
        snapshot.remote_share_id.as_str(),
    ) && same_text(current.mode.as_str(), "ondemand")
}

/// Whether the queued mode is the one that is expected. Without an expectation
/// anything is.
pub fn pending_intent_matches(pending: Option<&str>, expected: Option<&str>) -> (r: bool)
    ensures
        r == (match expected {
            None => true,
            Some(e) => match pending {
                None => false,
                Some(p) => p@ == e@,
            },
        }),
{
    match expected {
        None => true,
        Some(e) => match pending {
            None => false,
            Some(p) => same_text(p, e),
        },
    }
}

/// Do what follows on taking a mount down, but only if that worked: otherwise it may not
/// be done at all.
pub fn commit_after_teardown<T, E, F: FnOnce() -> T>(
    teardown: Result<(), E>,
    commit: F,
) -> (r: Result<T, E>)
    requires
        teardown is Ok ==> call_requires(commit, ()),
    ensures
        match r {
            Err(e) => teardown == Err::<(), E>(e),
            Ok(t) => teardown is Ok && call_ensures(commit, (), t),
        },
{
    match teardown {
        Err(e) => Err(e),
        Ok(_) => Ok(commit()),
    }
}

/// What a request for a mode leads to.
#[derive(Debug, Clone, Copy, PartialEq, Eq, Structural)]
pub enum ModeRequest {
    /// The folder is in that mode: look again under its lock.
    Recheck(ApplicableMountMode),
    /// Switch.
    Apply(ApplicableMountMode),
}

/// How it is told that there is no such folder.
pub open spec fn no_folder(id: i64) -> Seq<char> {
    "no synced folder with id "@ + signed_decimal(id as int)
}

fn no_folder_text(id: i64) -> (r: String)
    ensures
        r@ == no_folder(id),
{
    concat2("no synced folder with id ", signed_decimal_text(id).as_str())
}

/// Decide on a request for a mode. An unknown mode is refused first, then a folder
/// that is not there, then a folder in an unknown mode, then a paused folder that
/// would have to switch.
pub fn request_sync_folder_mode(
    id: i64,
    mode: &str,
    folder: &Option<StoredSyncFolder>,
    paused: bool,
) -> (r: Result<ModeRequest, CoreError>)
    ensures
        match r {
            Ok(ModeRequest::Recheck(m)) => mode_named(mode@) == Some(m) && *folder is Some
                && mode_named((folder->0).mode@) == Some(m),
            Ok(ModeRequest::Apply(m)) => {
                &&& mode_named(mode@) == Some(m)
                &&& *folder is Some
                &&& mode_named((folder->0).mode@) is Some
                &&& mode_named((folder->0).mode@) != Some(m)
                &&& !paused
            },
            Err(e) => if mode_named(mode@) is None {
                e.reads(ErrorKind::Invalid, unknown_mode(mode@))
            } else if *folder is None {
                e.reads(ErrorKind::NotFound, no_folder(id))
            } else if mode_named((folder->0).mode@) is None {
                e.reads(ErrorKind::Invalid, unsupported_current((folder->0).mode@))
            } else {
                &&& paused
                &&& mode_named((folder->0).mode@) != mode_named(mode@)
                &&& e.reads(
                    ErrorKind::Invalid,
                    "this folder is paused; resume it before changing its mode"@,
                )
            },
        },
{
    let target = match ApplicableMountMode::parse(mode) {
        Err(e) => {
            return Err(CoreError::invalid(e));
        },
        Ok(m) => m,
    };
    let folder = match folder {
        None => {
            return Err(CoreError::not_found(no_folder_text(id)));
        },
        Some(f) => f,
    };
    let current = match ApplicableMountMode::parse(folder.mode.as_str()) {
        Err(e) => {
            return Err(CoreError::invalid(concat2("unsupported current mode: ", e.as_str())));
        },
        Ok(m) => m,
    };
    if current != target && paused {
        return Err(
            CoreError::invalid(
                "this folder is paused; resume it before changing its mode".to_owned(),
            ),
        );
    }
    if current == target {
        Ok(ModeRequest::Recheck(target))
    } else {
        Ok(ModeRequest::Apply(target))
    }
}

/// What a request leads to once the folder's lock was tried.
#[derive(Debug)]
pub enum ModeRecheck {
    /// Withdraw the queued switch, watch the folder again, and answer.
    Withdraw(String),
    /// A pass owns the folder: queue this mode, ask for a pass, and answer.
    Queue(String),
    /// The folder changed under the request: switch.
    Apply,
}

/// Decide on a request for the mode that the folder was in. `locked` is the folder
/// as read under its lock, or nothing where the lock is held by another.
pub fn recheck_mode(
    id: i64,
    target: ApplicableMountMode,
    locked: &Option<Option<StoredSyncFolder>>,
) -> (r: Result<ModeRecheck, CoreError>)
    ensures
        match *locked {
            None => r matches Ok(ModeRecheck::Queue(s)) && s@ == "staying "@ + mode_text(target),
            Some(None) => r matches Err(e) && e.reads(ErrorKind::NotFound, no_folder(id)),
            Some(Some(f)) => match mode_named(f.mode@) {
                None => r matches Err(e) && e.reads(
                    ErrorKind::Invalid,
                    unsupported_current(f.mode@),
                ),
                Some(m) => if m == target {
                    r matches Ok(ModeRecheck::Withdraw(s)) && s@ == (if f.pending_mode is Some {
                        "staying "@
                    } else {
                        "already "@
                    }) + mode_text(target)
                } else {
                    r matches Ok(ModeRecheck::Apply)
                },
            },
        },
{
    match locked {
        None => Ok(ModeRecheck::Queue(concat2("staying ", target.as_str()))),
        Some(found) => match found {
            None => Err(CoreError::not_found(no_folder_text(id))),
            Some(f) => match ApplicableMountMode::parse(f.mode.as_str()) {
                Err(e) => Err(
                    CoreError::invalid(concat2("unsupported current mode: ", e.as_str())),
                ),
                Ok(m) => if m == target {
                    if f.pending_mode.is_some() {
                        Ok(ModeRecheck::Withdraw(concat2("staying ", target.as_str())))
                    } else {
                        Ok(ModeRecheck::Withdraw(concat2("already ", target.as_str())))
                    }
                } else {
                    Ok(ModeRecheck::Apply)
                },
            },
        },
    }
}

/// Why a switch did not happen.
#[derive(Debug)]
pub enum SwitchBlocked {
    /// Not yet: try again after a pass.
    NotNow,
    /// The queued request was withdrawn or replaced.
    Superseded,
    Failed(String),
}

/// How a request ends.
#[derive(Debug)]
pub enum ModeReply {
    Done(String),
    /// Queue the mode, ask for a pass, and answer.
    Queue(String),
}

/// What is told of a switch that has to wait.
pub open spec fn waiting_words(mode: ApplicableMountMode, local_path: Seq<char>) -> Seq<char> {
    base_name_of(local_path) + (match mode {
        ApplicableMountMode::OnDemand =>
            " will go on-demand once its local changes are uploaded"@,
        ApplicableMountMode::Mirror => " will start mirroring once the current sync finishes"@,
    })
}

/// How a request ends, given how the switch went.
pub fn mode_reply(
    outcome: Result<String, SwitchBlocked>,
    mode: ApplicableMountMode,
    local_path: &str,
) -> (r: Result<ModeReply, CoreError>)
    ensures
        match outcome {
            Ok(m) => r matches Ok(ModeReply::Done(s)) && s == m,
            Err(SwitchBlocked::NotNow) => r matches Ok(ModeReply::Queue(s)) && s@
                == waiting_words(mode, local_path@),
            Err(SwitchBlocked::Superseded) => r matches Err(e) && e.reads(
                ErrorKind::Internal,
                "direct mode request was unexpectedly superseded"@,
            ),
            Err(SwitchBlocked::Failed(m)) => r matches Err(e) && e.reads(ErrorKind::Internal, m@),
        },
{
    match outcome {
        Ok(m) => Ok(ModeReply::Done(m)),
        Err(SwitchBlocked::NotNow) => {
            let tail = match mode {
                ApplicableMountMode::OnDemand =>
                    " will go on-demand once its local changes are uploaded",
                ApplicableMountMode::Mirror =>
                    " will start mirroring once the current sync finishes",
            };
            Ok(ModeReply::Queue(concat2(base_name(local_path).as_str(), tail)))
        },
        Err(SwitchBlocked::Superseded) => Err(
            CoreError::internal("direct mode request was unexpectedly superseded".to_owned()),
        ),
        Err(SwitchBlocked::Failed(m)) => Err(CoreError::internal(m)),
    }
}

/// What is done about a queued mode after a pass.
#[derive(Debug, Clone, Copy, PartialEq, Eq, Structural)]
pub enum SettleStep {
    Nothing,
    /// Withdraw the queued mode: it holds already, or cannot be understood.
    Withdraw,
    Apply(ApplicableMountMode),
}

/// What is done about a queued mode after a pass.
pub fn settle_pending_mode(folder: &Option<StoredSyncFolder>) -> (r: SettleStep)
    ensures
        r == (match *folder {
            None => SettleStep::Nothing,
            Some(f) => match f.pending_mode {
                None => SettleStep::Nothing,
                Some(p) => if mode_named(f.mode@) is None || mode_named(p@) is None
                    || mode_named(f.mode@) == mode_named(p@) {
                    SettleStep::Withdraw
                } else {
                    SettleStep::Apply(mode_named(p@)->0)
                },
            },
        }),
{
    match folder {
        None => SettleStep::Nothing,
        Some(f) => match &f.pending_mode {
            None => SettleStep::Nothing,
            Some(p) => match select_mode_transition(f.mode.as_str(), p.as_str()) {
                Ok(Some(mode)) => SettleStep::Apply(mode),
                Ok(None) => SettleStep::Withdraw,
                Err(_) => SettleStep::Withdraw,
            },
        },
    }
}

/// What is told of a queued switch that was tried.
#[derive(Debug)]
pub enum Settled {
    /// It happened.
    Log(String),
    /// It stays queued.
    Waiting,
    /// It was replaced.
    Replaced,
    /// It cannot happen: withdraw it, and tell the user.
    Withdraw { subject: String, detail: String },
}

/// What is told of a queued switch that was tried.
pub fn settled(outcome: Result<String, SwitchBlocked>, local_path: &str) -> (r: Settled)
    ensures
        match outcome {
            Ok(m) => r matches Settled::Log(s) && s == m,
            Err(SwitchBlocked::NotNow) => r is Waiting,
            Err(SwitchBlocked::Superseded) => r is Replaced,
            Err(SwitchBlocked::Failed(e)) => r matches Settled::Withdraw { subject, detail }
                && subject@ == "couldn't switch "@ + base_name_of(local_path@) && detail == e,
        },
{
    match outcome {
        Ok(m) => Settled::Log(m),
        Err(SwitchBlocked::NotNow) => Settled::Waiting,
        Err(SwitchBlocked::Superseded) => Settled::Replaced,
        Err(SwitchBlocked::Failed(e)) => Settled::Withdraw {
            subject: concat2("couldn't switch ", base_name(local_path).as_str()),
            detail: e,
        },
    }
}

/// How a switch goes about it.
#[derive(Debug)]
pub enum SwitchPlan {
    /// Nothing to do.
    Already(String),
    /// Evict the local tree, and mount over it.
    ToOnDemand(NodeUid),
    /// Take the mount down, and download the tree again.
    ToMirror,
}

/// Plan a switch. `folder` is the folder as read under its lock, or nothing where
/// the lock is held by another. Only a folder that is in sync goes on-demand: its
/// local copy is about to be deleted.
pub fn apply_sync_folder_mode(
    id: i64,
    mode: ApplicableMountMode,
    folder: &Option<Option<StoredSyncFolder>>,
    expected_pending: Option<&str>,
) -> (r: Result<SwitchPlan, SwitchBlocked>)
    ensures
        match *folder {
            None => r matches Err(SwitchBlocked::NotNow),
            Some(None) => r matches Err(SwitchBlocked::Failed(e)) && e@ == no_folder(id),
            Some(Some(f)) => {
                let wanted = expected_pending is None || (f.pending_mode is Some
                    && (f.pending_mode->0)@ == (expected_pending->0)@);
                if !wanted {
                    r matches Err(SwitchBlocked::Superseded)
                } else if mode_named(f.mode@) is None {
                    r matches Err(SwitchBlocked::Failed(e)) && e@ == unsupported_current(f.mode@)
                } else if mode_named(f.mode@) == Some(mode) {
                    r matches Ok(SwitchPlan::Already(s)) && s@ == "already "@ + mode_text(mode)
                } else if mode is Mirror {
                    r matches Ok(SwitchPlan::ToMirror)
                } else if f.state@ != "idle"@ {
                    r matches Err(SwitchBlocked::NotNow)
                } else {
                    match uid_written(f.remote_uid@) {
                        None => r matches Err(SwitchBlocked::Failed(e)) && e@ == "bad remote uid: "@
                            + f.remote_uid@,
                        Some(u) => r matches Ok(SwitchPlan::ToOnDemand(uid)) && uid@ == u,
                    }
                }
            },
        },
{
    let f = match folder {
        None => {
            return Err(SwitchBlocked::NotNow);
        },
        Some(found) => match found {
            None => {
                return Err(SwitchBlocked::Failed(no_folder_text(id)));
            },
            Some(f) => f,
        },
    };
    let pending: Option<&str> = match &f.pending_mode {
        Some(p) => Some(p.as_str()),
        None => None,
    };
    if !pending_intent_matches(pending, expected_pending) {
        return Err(SwitchBlocked::Superseded);
    }
    let current = match ApplicableMountMode::parse(f.mode.as_str()) {
        Err(e) => {
            return Err(
                SwitchBlocked::Failed(concat2("unsupported current mode: ", e.as_str())),
            );
        },
        Ok(m) => m,
    };
    if current == mode {
        return Ok(SwitchPlan::Already(concat2("already ", mode.as_str())));
    }
    match mode {
        ApplicableMountMode::Mirror => Ok(SwitchPlan::ToMirror),
        ApplicableMountMode::OnDemand => {
            if !same_text(f.state.as_str(), "idle") {
                return Err(SwitchBlocked::NotNow);
            }
            match parse_uid(f.remote_uid.as_str()) {
                None => Err(
                    SwitchBlocked::Failed(concat2("bad remote uid: ", f.remote_uid.as_str())),
                ),
                Some(uid) => Ok(SwitchPlan::ToOnDemand(uid)),
            }
        },
    }
}

/// Where a switch is.
#[derive(Debug, Clone, Copy, PartialEq, Eq, Structural)]
pub enum SwitchStage {
    /// On the way to on-demand.
    AwaitRoot,
    AwaitOnDemandMode,
    AwaitEviction,
    AwaitSpawn,
    AwaitPublication,
    /// On the way to mirroring.
    AwaitTeardown,
    AwaitBaseline,
    AwaitMirrorMode,
    Over,
}

/// What a switch is to do.
#[derive(Debug, Clone, Copy, PartialEq, Eq, Structural)]
pub enum SwitchAction {
    /// Write that the folder is on-demand.
    WriteOnDemand,
    /// Delete the local tree.
    Evict,
    /// Mount over the local path.
    Spawn,
    /// Register the mount.
    Publish,
    /// Forget what was last synced.
    ClearBaseline,
    /// Write that the folder is mirrored.
    WriteMirror,
    /// The folder is on-demand: watch the rest, and mark it as in sync.
    DoneOnDemand,
    /// The folder is mirrored: watch it, and ask for a pass.
    DoneMirror,
    /// Stop, with the reason of what failed. Where the mount is still there the
    /// folder is marked as broken.
    Fail { mark_error: bool },
}

/// What follows on a step of a switch. Eviction need not succeed.
pub open spec fn switch_after(stage: SwitchStage, ok: bool) -> (SwitchStage, SwitchAction) {
    match stage {
        SwitchStage::AwaitRoot => if ok {
            (SwitchStage::AwaitOnDemandMode, SwitchAction::WriteOnDemand)
        } else {
            (SwitchStage::Over, SwitchAction::Fail { mark_error: false })
        },
        SwitchStage::AwaitOnDemandMode => if ok {
            (SwitchStage::AwaitEviction, SwitchAction::Evict)
        } else {
            (SwitchStage::Over, SwitchAction::Fail { mark_error: false })
        },
        SwitchStage::AwaitEviction => (SwitchStage::AwaitSpawn, SwitchAction::Spawn),
        SwitchStage::AwaitSpawn => if ok {
            (SwitchStage::AwaitPublication, SwitchAction::Publish)
        } else {
            (SwitchStage::Over, SwitchAction::Fail { mark_error: false })
        },
        SwitchStage::AwaitPublication => if ok {
            (SwitchStage::Over, SwitchAction::DoneOnDemand)
        } else {
            (SwitchStage::Over, SwitchAction::Fail { mark_error: false })
        },
        SwitchStage::AwaitTeardown => if ok {
            (SwitchStage::AwaitBaseline, SwitchAction::ClearBaseline)
        } else {
            (SwitchStage::Over, SwitchAction::Fail { mark_error: true })
        },
        SwitchStage::AwaitBaseline => if ok {
            (SwitchStage::AwaitMirrorMode, SwitchAction::WriteMirror)
        } else {
            (SwitchStage::Over, SwitchAction::Fail { mark_error: false })
        },
        SwitchStage::AwaitMirrorMode => if ok {
            (SwitchStage::Over, SwitchAction::DoneMirror)
        } else {
            (SwitchStage::Over, SwitchAction::Fail { mark_error: false })
        },
        SwitchStage::Over => (SwitchStage::Over, SwitchAction::Fail { mark_error: false }),
    }
}

/// Take how the last step of a switch went, and say what to do next.
pub fn switch_step(stage: SwitchStage, ok: bool) -> (r: (SwitchStage, SwitchAction))
    requires
        !(stage is Over),
    ensures
        r == switch_after(stage, ok),
{
    let stop = (SwitchStage::Over, SwitchAction::Fail { mark_error: false });
    match stage {
        SwitchStage::AwaitRoot => if ok {
            (SwitchStage::AwaitOnDemandMode, SwitchAction::WriteOnDemand)
        } else {
            stop
        },
        SwitchStage::AwaitOnDemandMode => if ok {
            (SwitchStage::AwaitEviction, SwitchAction::Evict)
        } else {
            stop
        },
        SwitchStage::AwaitEviction => (SwitchStage::AwaitSpawn, SwitchAction::Spawn),
        SwitchStage::AwaitSpawn => if ok {
            (SwitchStage::AwaitPublication, SwitchAction::Publish)
        } else {
            stop
        },
        SwitchStage::AwaitPublication => if ok {
            (SwitchStage::Over, SwitchAction::DoneOnDemand)
        } else {
            stop
        },
        SwitchStage::AwaitTeardown => if ok {
            (SwitchStage::AwaitBaseline, SwitchAction::ClearBaseline)
        } else {
            (SwitchStage::Over, SwitchAction::Fail { mark_error: true })
        },
        SwitchStage::AwaitBaseline => if ok {
            (SwitchStage::AwaitMirrorMode, SwitchAction::WriteMirror)
        } else {
            stop
        },
        SwitchStage::AwaitMirrorMode => if ok {
            (SwitchStage::Over, SwitchAction::DoneMirror)
        } else {
            stop
        },
        SwitchStage::Over => stop,
    }
}

/// The stage after a run of answers.
pub open spec fn switch_run(start: SwitchStage, answers: Seq<bool>) -> SwitchStage
    decreases answers.len(),
{
    if answers.len() == 0 {
        start
    } else {
        switch_after(switch_run(start, answers.drop_last()), answers.last()).0
    }
}

/// The action after a run of answers.
pub open spec fn switch_told(start: SwitchStage, answers: Seq<bool>) -> SwitchAction {
    switch_after(switch_run(start, answers.drop_last()), answers.last()).1
}

proof fn lemma_switch_run(start: SwitchStage, answers: Seq<bool>)
    requires
        start is AwaitRoot || start is AwaitTeardown,
    ensures
        ({
            let stage = switch_run(start, answers);
            &&& (stage is AwaitEviction || stage is AwaitSpawn || stage is AwaitPublication) ==> start
                is AwaitRoot && answers.len() >= 2 && answers[1]
            &&& stage is AwaitOnDemandMode ==> start is AwaitRoot && answers.len() == 1
            &&& stage is AwaitRoot ==> answers.len() == 0
            &&& (stage is AwaitBaseline || stage is AwaitMirrorMode) ==> start is AwaitTeardown
                && answers.len() >= 1 && answers[0]
            &&& stage is AwaitTeardown ==> answers.len() == 0
        }),
    decreases answers.len(),
{
    if answers.len() > 0 {
        let rest = answers.drop_last();
        lemma_switch_run(start, rest);
        if rest.len() > 0 {
            assert(rest[0] == answers[0]);
        }
        if rest.len() > 1 {
            assert(rest[1] == answers[1]);
        }
    }
}

/// The local tree is deleted only after the row says on-demand: while it says
/// mirrored, an empty directory would read as the user having deleted everything.
pub proof fn law_mode_is_written_before_eviction(start: SwitchStage, answers: Seq<bool>)
    requires
        start is AwaitRoot || start is AwaitTeardown,
        answers.len() > 0,
        switch_told(start, answers) is Evict,
    ensures
        start is AwaitRoot,
        answers.len() == 2,
        answers[1],
        switch_told(start, answers.take(1)) is WriteOnDemand,
{
    lemma_switch_run(start, answers.drop_last());
    assert(answers.take(1).drop_last() =~= Seq::<bool>::empty());
    assert(answers.drop_last() =~= answers.take(1));
    assert(switch_run(start, answers.take(1)) is AwaitOnDemandMode);
    assert(answers.take(1).last() == answers[0]);
}

/// A mount that cannot be taken down changes nothing of the folder but its mark:
/// neither its baseline nor its mode.
pub proof fn law_failed_teardown_changes_nothing(answers: Seq<bool>)
    requires
        answers.len() > 0,
        switch_told(SwitchStage::AwaitTeardown, answers) is ClearBaseline || switch_told(
            SwitchStage::AwaitTeardown,
            answers,
        ) is WriteMirror || switch_told(SwitchStage::AwaitTeardown, answers) is DoneMirror,
    ensures
        answers[0],
{
    let rest = answers.drop_last();
    lemma_switch_run(SwitchStage::AwaitTeardown, rest);
    if rest.len() > 0 {
        assert(rest[0] == answers[0]);
    }
}

/// The words for a switch that happened, or for what stopped it. `path` is the
/// local path, and `error` what the failed step said.
pub open spec fn switch_words(stage: SwitchStage, path: Seq<char>, error: Seq<char>) -> Seq<char> {
    match stage {
        SwitchStage::AwaitRoot => error,
        SwitchStage::AwaitSpawn =>
            "mount ondemand failed after local cache eviction; switch back to mirror to restore it: "@
            + error,
        SwitchStage::AwaitPublication => error,
        SwitchStage::AwaitTeardown => "unmount "@ + path + " failed; folder remains on-demand: "@
            + error,
        _ => "db: "@ + error,
    }
}

/// The words for what stopped a switch at `stage`.
pub fn switch_error(stage: SwitchStage, path: &str, error: &str) -> (r: String)
    ensures
        r@ == switch_words(stage, path@, error@),
{
    match stage {
        SwitchStage::AwaitRoot => error.to_owned(),
        SwitchStage::AwaitSpawn => concat2(
            "mount ondemand failed after local cache eviction; switch back to mirror to restore it: ",
            error,
        ),
        SwitchStage::AwaitPublication => error.to_owned(),
        SwitchStage::AwaitTeardown => concat4(
            "unmount ",
            path,
            " failed; folder remains on-demand: ",
            error,
        ),
        _ => concat2("db: ", error),
    }
}

/// The remote root of a folder that goes on-demand, or why there is none.
pub fn remote_root<T>(answer: Result<Option<T>, String>) -> (r: Result<T, String>)
    ensures
        match answer {
            Ok(Some(t)) => r == Ok::<T, String>(t),
            Ok(None) => r matches Err(e) && e@ == "remote folder not found"@,
            Err(x) => r matches Err(e) && e@ == "fetch remote root: "@ + x@,
        },
{
    match answer {
        Ok(Some(t)) => Ok(t),
        Ok(None) => Err("remote folder not found".to_owned()),
        Err(x) => Err(concat2("fetch remote root: ", x.as_str())),
    }
}

/// The words for a switch that happened.
pub fn switch_done(mode: ApplicableMountMode, path: &str) -> (r: String)
    ensures
        r@ == path@ + (match mode {
            ApplicableMountMode::OnDemand => " is now on-demand"@,
            ApplicableMountMode::Mirror => " is mirroring again; downloading"@,
        }),
{
    match mode {
        ApplicableMountMode::OnDemand => concat2(path, " is now on-demand"),
        ApplicableMountMode::Mirror => concat2(path, " is mirroring again; downloading"),
    }
}

/// How far the restoring of an on-demand mount got.
#[derive(Debug, Clone, Copy, PartialEq, Eq, Structural)]
pub enum RestoreStage {
    /// The folder's row was read.
    Listed,
    /// The remote folder was asked for.
    Fetched,
    /// The row was read again under the folder's lock.
    Reread,
    /// Whether mounts are still taken was asked.
    Accepting,
    /// Whether the local path is a directory was asked; a dead mount over it was
    /// cleared before.
    Directory,
    /// Whether the directory is empty was asked.
    Empty,
    /// The mount was spawned.
    Spawned,
    /// The mount was registered.
    Published,
}

/// What the restoring of a mount does next.
#[derive(Debug, Clone, Copy, PartialEq, Eq, Structural)]
pub enum RestoreStep {
    /// Leave the folder alone.
    Skip,
    /// Mark the folder as broken, if its row is still the one that was read.
    MarkIfCurrent,
    /// Mark the folder as broken.
    MarkError,
    /// Ask what the next stage is about.
    Go(RestoreStage),
    /// The mount is back: mark the folder as in sync.
    MarkIdle,
}

/// What the restoring of a mount does next, after `stage` came out well or not.
pub open spec fn restore_after(stage: RestoreStage, ok: bool) -> RestoreStep {
    match stage {
        RestoreStage::Listed => if ok {
            RestoreStep::Go(RestoreStage::Fetched)
        } else {
            RestoreStep::MarkIfCurrent
        },
        RestoreStage::Fetched => if ok {
            RestoreStep::Go(RestoreStage::Reread)
        } else {
            RestoreStep::MarkIfCurrent
        },
        RestoreStage::Reread => if ok {
            RestoreStep::Go(RestoreStage::Accepting)
        } else {
            RestoreStep::Skip
        },
        RestoreStage::Accepting => if ok {
            RestoreStep::Go(RestoreStage::Directory)
        } else {
            RestoreStep::Skip
        },
        RestoreStage::Directory => if ok {
            RestoreStep::Go(RestoreStage::Empty)
        } else {
            RestoreStep::MarkError
        },
        RestoreStage::Empty => if ok {
            RestoreStep::Go(RestoreStage::Spawned)
        } else {
            RestoreStep::MarkError
        },
        RestoreStage::Spawned => if ok {
            RestoreStep::Go(RestoreStage::Published)
        } else {
            RestoreStep::MarkError
        },
        RestoreStage::Published => if ok {
            RestoreStep::MarkIdle
        } else {
            RestoreStep::Skip
        },
    }
}

/// Begin to restore the mount of a folder, if it is on-demand. A folder whose
/// remote cannot be named is marked as broken.
pub fn restore_begin(folder: &StoredSyncFolder) -> (r: (RestoreStep, Option<NodeUid>))
    ensures
        folder.mode@ != "ondemand"@ ==> r.0 == RestoreStep::Skip && r.1 is None,
        folder.mode@ == "ondemand"@ ==> r.0 == restore_after(
            RestoreStage::Listed,
            uid_written(folder.remote_uid@) is Some,
        ),
        folder.mode@ == "ondemand"@ ==> (r.1 is Some <==> uid_written(folder.remote_uid@) is Some),
        r.1 is Some ==> uid_written(folder.remote_uid@) == Some((r.1->0)@),
{
    if !same_text(folder.mode.as_str(), "ondemand") {
        return (RestoreStep::Skip, None);
    }
    match parse_uid(folder.remote_uid.as_str()) {
        None => (RestoreStep::MarkIfCurrent, None),
        Some(uid) => (RestoreStep::Go(RestoreStage::Fetched), Some(uid)),
    }
}

/// What the restoring of a mount does next, after `stage` came out well or not.
pub fn restore_ondemand_mounts(stage: RestoreStage, ok: bool) -> (r: RestoreStep)
    ensures
        r == restore_after(stage, ok),
{
    match stage {
        RestoreStage::Listed => if ok {
            RestoreStep::Go(RestoreStage::Fetched)
        } else {
            RestoreStep::MarkIfCurrent
        },
        RestoreStage::Fetched => if ok {
            RestoreStep::Go(RestoreStage::Reread)
        } else {
            RestoreStep::MarkIfCurrent
        },
        RestoreStage::Reread => if ok {
            RestoreStep::Go(RestoreStage::Accepting)
        } else {
            RestoreStep::Skip
        },
        RestoreStage::Accepting => if ok {
            RestoreStep::Go(RestoreStage::Directory)
        } else {
            RestoreStep::Skip
        },
        RestoreStage::Directory => if ok {
            RestoreStep::Go(RestoreStage::Empty)
        } else {
            RestoreStep::MarkError
        },
        RestoreStage::Empty => if ok {
            RestoreStep::Go(RestoreStage::Spawned)
        } else {
            RestoreStep::MarkError
        },
        RestoreStage::Spawned => if ok {
            RestoreStep::Go(RestoreStage::Published)
        } else {
            RestoreStep::MarkError
        },
        RestoreStage::Published => if ok {
            RestoreStep::MarkIdle
        } else {
            RestoreStep::Skip
        },
    }
}

/// Whether a row that was read again is still the folder that is being restored. A
/// row that is gone, or cannot be read, is not.
pub fn reread_matches(snapshot: &StoredSyncFolder, current: &Option<StoredSyncFolder>) -> (r: bool)
    ensures
        r == (*current is Some && still_the_same(*snapshot, current->0)),
{
    match current {
        Some(c) => restore_snapshot_matches(snapshot, c),
        None => false,
    }
}

/// The stages that a restoring goes through, given how each comes out.
pub open spec fn restore_reaches(stage: RestoreStage, well: spec_fn(RestoreStage) -> bool) -> bool {
    match stage {
        RestoreStage::Listed => true,
        RestoreStage::Fetched => well(RestoreStage::Listed),
        RestoreStage::Reread => well(RestoreStage::Listed) && well(RestoreStage::Fetched),
        RestoreStage::Accepting => restore_reaches_reread(well) && well(RestoreStage::Reread),
        RestoreStage::Directory => restore_reaches_reread(well) && well(RestoreStage::Reread)
            && well(RestoreStage::Accepting),
        RestoreStage::Empty => restore_reaches_reread(well) && well(RestoreStage::Reread) && well(
            RestoreStage::Accepting,
        ) && well(RestoreStage::Directory),
        RestoreStage::Spawned => restore_reaches_reread(well) && well(RestoreStage::Reread)
            && well(RestoreStage::Accepting) && well(RestoreStage::Directory) && well(
            RestoreStage::Empty,
        ),
        RestoreStage::Published => restore_reaches_reread(well) && well(RestoreStage::Reread)
            && well(RestoreStage::Accepting) && well(RestoreStage::Directory) && well(
            RestoreStage::Empty,
        ) && well(RestoreStage::Spawned),
    }
}

/// Whether the row is read again.
pub open spec fn restore_reaches_reread(well: spec_fn(RestoreStage) -> bool) -> bool {
    well(RestoreStage::Listed) && well(RestoreStage::Fetched)
}

/// A mount is put over a path only after the row was found unchanged under its
/// lock, mounts are still taken, and the path is an empty directory.
pub proof fn law_restores_only_over_an_empty_directory(
    stage: RestoreStage,
    well: spec_fn(RestoreStage) -> bool,
)
    requires
        restore_reaches(stage, well),
        restore_after(stage, well(stage)) == RestoreStep::Go(RestoreStage::Spawned),
    ensures
        well(RestoreStage::Reread),
        well(RestoreStage::Accepting),
        well(RestoreStage::Directory),
        well(RestoreStage::Empty),
{
}

/// How the taking away of a folder ends, before anything of it is deleted.
pub fn remove_sync_folder(
    id: i64,
    folder: &Option<StoredSyncFolder>,
    teardown: Option<&str>,
) -> (r: Result<(), CoreError>)
    ensures
        match *folder {
            None => r matches Err(e) && e.reads(ErrorKind::NotFound, no_folder(id)),
            Some(f) => match teardown {
                None => r is Ok,
                Some(error) => r matches Err(e) && e.reads(
                    ErrorKind::Internal,
                    "cannot remove synced folder: unmount "@ + f.local_path@ + " failed: "@
                        + error@,
                ),
            },
        },
{
    match folder {
        None => Err(CoreError::not_found(no_folder_text(id))),
        Some(f) => match teardown {
            None => Ok(()),
            Some(error) => Err(
                CoreError::internal(
                    concat4(
                        "cannot remove synced folder: unmount ",
                        f.local_path.as_str(),
                        " failed: ",
                        error,
                    ),
                ),
            ),
        },
    }
}

/// The outcome of deleting a folder's row: one that is not there any more is told.
pub fn removed_row(id: i64, removed: bool) -> (r: Result<(), CoreError>)
    ensures
        removed ==> r is Ok,
        !removed ==> (r matches Err(e) && e.reads(ErrorKind::Invalid, no_folder(id))),
{
    if removed {
        Ok(())
    } else {
        Err(CoreError::invalid(no_folder_text(id)))
    }
}

/// What the sync engine is asked for.
#[derive(Debug, Clone, Copy, PartialEq, Eq, Structural)]
pub enum SyncRequest {
    Reconcile(i64),
    ReconcileAll,
}

/// Ask for a pass over one folder, or over all.
pub fn sync_now(id: Option<i64>) -> (r: SyncRequest)
    ensures
        r == (match id {
            Some(i) => SyncRequest::Reconcile(i),
            None => SyncRequest::ReconcileAll,
        }),
{
    match id {
        Some(i) => SyncRequest::Reconcile(i),
        None => SyncRequest::ReconcileAll,
    }
}

/// How many answers a switch waits for at most.
pub open spec fn switch_left(stage: SwitchStage) -> nat {
    match stage {
        SwitchStage::AwaitRoot => 5,
        SwitchStage::AwaitOnDemandMode => 4,
        SwitchStage::AwaitEviction => 3,
        SwitchStage::AwaitSpawn => 2,
        SwitchStage::AwaitPublication => 1,
        SwitchStage::AwaitTeardown => 3,
        SwitchStage::AwaitBaseline => 2,
        SwitchStage::AwaitMirrorMode => 1,
        SwitchStage::Over => 0,
    }
}

/// Every answer brings a switch closer to its end. A switch to on-demand never writes
/// that the folder is mirrored: once the local tree may be gone, that would read as the
/// user having deleted it.
pub proof fn law_switch_ends_and_never_reverts(stage: SwitchStage, ok: bool)
    requires
        !(stage is Over),
    ensures
        switch_left(switch_after(stage, ok).0) < switch_left(stage),
        switch_after(stage, ok).1 is WriteMirror ==> stage is AwaitBaseline,
{
}

/// A mode is read from its own text and from no other.
pub proof fn law_modes_are_read_from_their_text(
    value: Seq<char>,
    a: ApplicableMountMode,
    b: ApplicableMountMode,
)
    ensures
        mode_named(value) is Some ==> mode_text(mode_named(value)->0) == value,
        mode_text(a) == mode_text(b) ==> a == b,
{
    law_modes_round_trip(a);
    law_modes_round_trip(b);
}

/// What a switch between modes has done so far.
pub ghost struct Switching {
    pub stage: SwitchStage,
    pub action: Option<SwitchAction>,
    /// The remote folder is there.
    pub root: bool,
    /// The row says on-demand, the local files were given up, and the mount is up and known.
    pub on_demand: bool,
    pub evicted: bool,
    pub mounted: bool,
    pub published: bool,
    /// The mount is down, what was synced is forgotten, and the row says mirror.
    pub down: bool,
    pub cleared: bool,
    pub mirror: bool,
}

/// A switch so far. Before it does anything, one to on-demand asks for the remote folder, and
/// one to mirror takes the mount down.
pub open spec fn switching(to_mirror: bool, answers: Seq<bool>) -> Switching
    decreases answers.len(),
{
    if answers.len() == 0 {
        Switching {
            stage: if to_mirror {
                SwitchStage::AwaitTeardown
            } else {
                SwitchStage::AwaitRoot
            },
            action: None,
            root: false,
            on_demand: false,
            evicted: false,
            mounted: false,
            published: false,
            down: false,
            cleared: false,
            mirror: false,
        }
    } else {
        let w = switching(to_mirror, answers.drop_last());
        let ok = answers.last();
        let (stage, action) = switch_after(w.stage, ok);
        Switching {
            stage,
            action: Some(action),
            root: w.root || (w.action is None && !to_mirror && ok),
            on_demand: w.on_demand || (w.action == Some(SwitchAction::WriteOnDemand) && ok),
            evicted: w.evicted || action is Evict,
            mounted: w.mounted || (w.action == Some(SwitchAction::Spawn) && ok),
            published: w.published || (w.action == Some(SwitchAction::Publish) && ok),
            down: w.down || (w.action is None && to_mirror && ok),
            cleared: w.cleared || (w.action == Some(SwitchAction::ClearBaseline) && ok),
            mirror: w.mirror || (w.action == Some(SwitchAction::WriteMirror) && ok),
        }
    }
}

proof fn lemma_switching(to_mirror: bool, answers: Seq<bool>)
    requires
        forall|n: int|
            0 <= n < answers.len() ==> !(switching(to_mirror, #[trigger] answers.take(n)).stage
                is Over),
    ensures
        ({
            let w = switching(to_mirror, answers);
            &&& w.on_demand ==> w.root
            &&& w.evicted ==> w.on_demand
            &&& w.mounted ==> w.evicted
            &&& w.published ==> w.mounted
            &&& w.cleared ==> w.down
            &&& w.mirror ==> w.cleared
            &&& to_mirror ==> !w.root
            &&& !to_mirror ==> !w.down
            &&& match w.stage {
                SwitchStage::AwaitRoot => w.action is None && !to_mirror,
                SwitchStage::AwaitOnDemandMode => w.action == Some(SwitchAction::WriteOnDemand)
                    && w.root && !w.on_demand,
                SwitchStage::AwaitEviction => w.action == Some(SwitchAction::Evict) && w.evicted
                    && !w.mounted,
                SwitchStage::AwaitSpawn => w.action == Some(SwitchAction::Spawn) && w.evicted
                    && !w.mounted,
                SwitchStage::AwaitPublication => w.action == Some(SwitchAction::Publish)
                    && w.mounted && !w.published,
                SwitchStage::AwaitTeardown => w.action is None && to_mirror,
                SwitchStage::AwaitBaseline => w.action == Some(SwitchAction::ClearBaseline)
                    && w.down && !w.cleared,
                SwitchStage::AwaitMirrorMode => w.action == Some(SwitchAction::WriteMirror)
                    && w.cleared && !w.mirror,
                SwitchStage::Over => w.action is Some && (w.action == Some(
                    SwitchAction::DoneOnDemand,
                ) ==> w.published) && (w.action == Some(SwitchAction::DoneMirror) ==> w.mirror)
                    && !(w.action->0 is Evict),
            }
        }),
    decreases answers.len(),
{
    if answers.len() > 0 {
        let before = answers.drop_last();
        assert forall|n: int| 0 <= n < before.len() implies !(switching(
            to_mirror,
            #[trigger] before.take(n),
        ).stage is Over) by {
            assert(before.take(n) =~= answers.take(n));
        }
        assert(answers.take(answers.len() - 1) =~= before);
        lemma_switching(to_mirror, before);
    }
}

/// A switch is told to be done just where everything it needs was done, in its order. Local
/// files are given up only once the row says on-demand, and the row says mirror only once
/// the mount is down.
pub proof fn law_switch_tells_the_truth(to_mirror: bool, answers: Seq<bool>)
    requires
        answers.len() > 0,
        forall|n: int|
            0 <= n < answers.len() ==> !(switching(to_mirror, #[trigger] answers.take(n)).stage
                is Over),
    ensures
        ({
            let w = switching(to_mirror, answers);
            let before = switching(to_mirror, answers.drop_last());
            let ok = answers.last();
            &&& w.evicted ==> w.root && w.on_demand
            &&& w.mirror ==> w.down && w.cleared
            &&& w.action == Some(SwitchAction::DoneOnDemand) ==> !to_mirror && w.root
                && w.on_demand && w.evicted && w.mounted && w.published
            &&& w.action == Some(SwitchAction::DoneMirror) ==> to_mirror && w.down && w.cleared
                && w.mirror
            // It fails just where a step did; files that could not be given up stop nothing.
            &&& w.action->0 is Fail <==> !ok && before.action != Some(SwitchAction::Evict)
            &&& w.action->0 is Fail ==> (w.action->0->mark_error <==> to_mirror && !w.down)
            &&& w.published ==> w.action == Some(SwitchAction::DoneOnDemand)
            &&& w.mirror ==> w.action == Some(SwitchAction::DoneMirror)
        }),
{
    lemma_switching(to_mirror, answers);
    let before = answers.drop_last();
    assert forall|n: int| 0 <= n < before.len() implies !(switching(
        to_mirror,
        #[trigger] before.take(n),
    ).stage is Over) by {
        assert(before.take(n) =~= answers.take(n));
    }
    assert(answers.take(answers.len() - 1) =~= before);
    lemma_switching(to_mirror, before);
}

/// A restore that meets no trouble takes each of its stages once, and leaves the folder
/// idle. Trouble never lets it go on; it is left alone where the folder changed meanwhile,
/// the daemon stops, or somebody else mounted it.
pub proof fn law_restore_takes_every_stage(stage: RestoreStage, ok: bool)
    ensures
        ({
            let a = restore_after(RestoreStage::Listed, true);
            let b = restore_after(a->Go_0, true);
            let c = restore_after(b->Go_0, true);
            let d = restore_after(c->Go_0, true);
            let e = restore_after(d->Go_0, true);
            let f = restore_after(e->Go_0, true);
            let g = restore_after(f->Go_0, true);
            &&& a is Go && b is Go && c is Go && d is Go && e is Go && f is Go && g is Go
            &&& seq![
                RestoreStage::Listed,
                a->Go_0,
                b->Go_0,
                c->Go_0,
                d->Go_0,
                e->Go_0,
                f->Go_0,
                g->Go_0,
            ].no_duplicates()
            &&& restore_after(g->Go_0, true) is MarkIdle
        }),
        restore_after(stage, ok) is Go || restore_after(stage, ok) is MarkIdle <==> ok,
        restore_after(stage, ok) is Skip <==> !ok && (stage is Reread || stage is Accepting || stage
            is Published),
        restore_after(stage, ok) is MarkIfCurrent <==> !ok && (stage is Listed || stage
            is Fetched),
{
}

/// A folder is restored only if its row still says what it said, and on-demand.
pub proof fn law_changed_folders_are_not_restored(
    snapshot: StoredSyncFolder,
    current: StoredSyncFolder,
)
    ensures
        still_the_same(snapshot, current) ==> current.mode@ == "ondemand"@ && current.id
            == snapshot.id && current.local_path@ == snapshot.local_path@ && current.remote_uid@
            == snapshot.remote_uid@ && current.remote_share_id@ == snapshot.remote_share_id@,
        snapshot.mode@ == "ondemand"@ ==> still_the_same(snapshot, snapshot),
        current.local_path@ != snapshot.local_path@ ==> !still_the_same(snapshot, current),
{
}

/// A switch that failed says why.
pub proof fn law_failed_switches_say_why(stage: SwitchStage, path: Seq<char>, error: Seq<char>)
    ensures
        error.is_suffix_of(switch_words(stage, path, error)),
{
}

} // verus!

//! What a front-end asks of the daemon, and what it is answered.
//!
//! A request is routed: its paths are turned into paths inside the mount, or it is
//! refused. Once it was carried out, its outcome becomes a response and, where the
//! user should find it later, a line of the activity log.

use crate::names::{
    count_noun, human_bytes, human_duration, mebibytes, mebibytes_text, shown_bytes, shown_duration,
};
use crate::paths::{
    base_name, base_name_of, file_name, mount_relative, path_file_name, rel_to_mount, texts,
};
use crate::text::{
    chars_of, concat2, concat3, concat5, decimal, decimal_text, same_text, signed_decimal,
    signed_decimal_text, trim, trimmed,
};
use crate::uid::{parse_uid, uid_written, NodeUid};
use vstd::prelude::*;

verus! {

/// A request, with what its answer depends on.
#[derive(Debug)]
pub enum Request {
    Status,
    Pin { path: String },
    Unpin { path: String },
    ListPins,
    ListDir { path: String },
    RefreshDir { path: String },
    RefreshTrash,
    RefreshPhotos,
    PhotosTimeline,
    PhotoMonths,
    PhotoThumbs,
    OpenPhoto { uid: String },
    UploadPhoto,
    OpenFile { path: String },
    Search,
    SearchLocal,
    Rename { path: String },
    Move { path: String, new_parent: String },
    Delete { path: String },
    CreateFolder { parent: String, name: String },
    UploadFile { parent: String, name: String },
    UploadPaths { parent: String, count: u64 },
    ListTrash,
    Restore,
    DeleteForever,
    EmptyTrash,
    PurgeCache,
    GetQueueStatus,
    SetCacheBudget { bytes: u64 },
    ListDevices,
    RenameDevice { name: String },
    DeleteDevice,
    AddSyncFolder { local_path: String },
    ListSyncFolders,
    RemoveSyncFolder,
    SetSyncFolderMode,
    SyncNow { id: Option<i64> },
    ShareNode { path: String, role: String },
    ListShare { path: String },
    UpdateShareRole { path: String, role: String },
    RemoveShareEntry { path: String },
    CreatePublicLink { path: String },
    RemovePublicLink { path: String },
    ListSharedWithMe,
    LeaveShared,
    ListInvitations,
    AcceptInvitation,
    RejectInvitation,
    ListBookmarks,
    CreateBookmark,
    DeleteBookmark,
    ListSharedByMe,
    ListActivity,
}

/// What the daemon did, for the activity log.
#[derive(Debug, Clone, Copy, PartialEq, Eq, Structural)]
pub enum ActivityKind {
    Upload,
    Trash,
    Rename,
    Move,
    CreateFolder,
    Restore,
    DeleteForever,
    EmptyTrash,
    Share,
    Unshare,
    PublicLink,
    Sync,
}

/// A line of the activity log.
#[derive(Debug)]
pub struct Activity {
    pub kind: ActivityKind,
    pub target: String,
    pub detail: String,
    pub ok: bool,
}

/// What a line of the activity log says.
#[verifier::ext_equal]
pub struct Logged {
    pub kind: ActivityKind,
    pub target: Seq<char>,
    pub detail: Seq<char>,
    pub ok: bool,
}

impl View for Activity {
    type V = Logged;

    open spec fn view(&self) -> Logged {
        Logged { kind: self.kind, target: self.target@, detail: self.detail@, ok: self.ok }
    }
}

/// A response. A payload is what was asked for.
#[derive(Debug)]
pub enum Response {
    Message(String),
    Error(String),
    Payload,
}

/// What a response says.
pub enum Said {
    Message(Seq<char>),
    Error(Seq<char>),
    Payload,
}

/// A response, and the line of the log that goes with it.
#[derive(Debug)]
pub struct Reply {
    pub response: Response,
    pub activity: Option<Activity>,
}

impl Reply {
    /// What the response says.
    pub open spec fn says(self) -> Said {
        match self.response {
            Response::Message(s) => Said::Message(s@),
            Response::Error(s) => Said::Error(s@),
            Response::Payload => Said::Payload,
        }
    }

    /// What the log says.
    pub open spec fn logs(self) -> Option<Logged> {
        match self.activity {
            Some(a) => Some(a@),
            None => None,
        }
    }

    /// Whether the reply says and logs what is given.
    pub open spec fn is(self, reply: (Said, Option<Logged>)) -> bool {
        self.says() == reply.0 && self.logs() == reply.1
    }
}

/// How a request was carried out.
#[derive(Debug)]
pub enum Outcome {
    Failed(String),
    Done,
    /// It is about this node, or answers with this text.
    Named(String),
    Count(u64),
    /// How many were invited, of the service and from outside.
    Invited { proton: u64, external: u64 },
    /// The payload is there.
    Data,
    /// It took effect, and could not be written to the configuration.
    Unsaved(String),
    /// It took effect, and there is no configuration to write to.
    Unconfigured(String),
}

/// The path in a request that has to lie in the mount.
pub open spec fn path_in(req: Request) -> Option<Seq<char>> {
    match req {
        Request::Pin { path } => Some(path@),
        Request::Unpin { path } => Some(path@),
        Request::ListDir { path } => Some(path@),
        Request::RefreshDir { path } => Some(path@),
        Request::OpenFile { path } => Some(path@),
        Request::Rename { path } => Some(path@),
        Request::Move { path, .. } => Some(path@),
        Request::Delete { path } => Some(path@),
        Request::CreateFolder { parent, .. } => Some(parent@),
        Request::UploadFile { parent, .. } => Some(parent@),
        Request::UploadPaths { parent, .. } => Some(parent@),
        Request::ShareNode { path, .. } => Some(path@),
        Request::ListShare { path } => Some(path@),
        Request::UpdateShareRole { path, .. } => Some(path@),
        Request::RemoveShareEntry { path } => Some(path@),
        Request::CreatePublicLink { path } => Some(path@),
        Request::RemovePublicLink { path } => Some(path@),
        _ => None,
    }
}

/// The second path in a request that has to lie in the mount.
pub open spec fn second_path_in(req: Request) -> Option<Seq<char>> {
    match req {
        Request::Move { new_parent, .. } => Some(new_parent@),
        _ => None,
    }
}

/// The paths of a request, inside the mount.
#[derive(Debug)]
pub struct Route {
    pub first: Option<Vec<String>>,
    pub second: Option<Vec<String>>,
    pub uid: Option<NodeUid>,
}

/// Whether the path, if there is one, lies in the mount.
pub open spec fn lies_in(mountpoint: Seq<char>, path: Option<Seq<char>>) -> bool {
    path is Some ==> mount_relative(mountpoint, path->0) is Some
}

/// Whether `parts` is where the path, if there is one, lies in the mount.
pub open spec fn lies_at(
    mountpoint: Seq<char>,
    path: Option<Seq<char>>,
    parts: Option<Vec<String>>,
) -> bool {
    match path {
        None => parts is None,
        Some(p) => parts is Some && mount_relative(mountpoint, p) == Some(texts((parts->0)@)),
    }
}

/// Why a path is refused.
pub open spec fn outside(path: Seq<char>) -> Seq<char> {
    path + " is not under the mountpoint"@
}

fn path_of(req: &Request) -> (r: Option<&String>)
    ensures
        match r {
            Some(s) => path_in(*req) == Some(s@),
            None => path_in(*req) is None,
        },
{
    match req {
        Request::Pin { path } => Some(path),
        Request::Unpin { path } => Some(path),
        Request::ListDir { path } => Some(path),
        Request::RefreshDir { path } => Some(path),
        Request::OpenFile { path } => Some(path),
        Request::Rename { path } => Some(path),
        Request::Move { path, .. } => Some(path),
        Request::Delete { path } => Some(path),
        Request::CreateFolder { parent, .. } => Some(parent),
        Request::UploadFile { parent, .. } => Some(parent),
        Request::UploadPaths { parent, .. } => Some(parent),
        Request::ShareNode { path, .. } => Some(path),
        Request::ListShare { path } => Some(path),
        Request::UpdateShareRole { path, .. } => Some(path),
        Request::RemoveShareEntry { path } => Some(path),
        Request::CreatePublicLink { path } => Some(path),
        Request::RemovePublicLink { path } => Some(path),
        _ => None,
    }
}

fn second_path_of(req: &Request) -> (r: Option<&String>)
    ensures
        match r {
            Some(s) => second_path_in(*req) == Some(s@),
            None => second_path_in(*req) is None,
        },
{
    match req {
        Request::Move { new_parent, .. } => Some(new_parent),
        _ => None,
    }
}

fn place(mountpoint: &str, path: Option<&String>) -> (r: Result<Option<Vec<String>>, String>)
    ensures
        ({
            let p = match path {
                Some(s) => Some(s@),
                None => None,
            };
            match r {
                Ok(parts) => lies_in(mountpoint@, p) && lies_at(mountpoint@, p, parts),
                Err(e) => !lies_in(mountpoint@, p) && e@ == outside(p->0),
            }
        }),
{
    match path {
        None => Ok(None),
        Some(s) => match rel_to_mount(mountpoint, s.as_str()) {
            Ok(parts) => Ok(Some(parts)),
            Err(e) => Err(e),
        },
    }
}

/// Route a request: turn its paths into paths inside the mount. The first path that
/// lies outside refuses it, and so does a photo that cannot be named.
pub fn handle_control_conn(req: &Request, mountpoint: &str) -> (r: Result<Route, String>)
    ensures
        match r {
            Ok(route) => {
                &&& lies_at(mountpoint@, path_in(*req), route.first)
                &&& lies_at(mountpoint@, second_path_in(*req), route.second)
                &&& match *req {
                    Request::OpenPhoto { uid } => route.uid is Some && uid_written(uid@) == Some(
                        (route.uid->0)@,
                    ),
                    _ => route.uid is None,
                }
            },
            Err(e) => if !lies_in(mountpoint@, path_in(*req)) {
                e@ == outside(path_in(*req)->0)
            } else if !lies_in(mountpoint@, second_path_in(*req)) {
                e@ == outside(second_path_in(*req)->0)
            } else {
                *req matches Request::OpenPhoto { uid } && uid_written(uid@) is None && e@
                    == "bad uid: "@ + uid@
            },
        },
{
    let first = match place(mountpoint, path_of(req)) {
        Err(e) => {
            return Err(e);
        },
        Ok(p) => p,
    };
    let second = match place(mountpoint, second_path_of(req)) {
        Err(e) => {
            return Err(e);
        },
        Ok(p) => p,
    };
    let uid: Option<NodeUid> = match req {
        Request::OpenPhoto { uid } => match parse_uid(uid.as_str()) {
            Some(u) => Some(u),
            None => {
                return Err(concat2("bad uid: ", uid.as_str()));
            },
        },
        _ => None,
    };
    Ok(Route { first, second, uid })
}

/// Whether a line that came over the socket is a request at all: a blank one is not.
pub fn is_request(line: &str) -> (r: bool)
    ensures
        r == (trim(line@).len() > 0),
{
    let t = trimmed(line);
    let v = chars_of(t.as_str());
    v.len() > 0
}

/// What a request that could not be read is answered.
pub fn bad_request(error: &str) -> (r: Reply)
    ensures
        r.is((Said::Error("bad request: "@ + error@), None)),
{
    Reply { response: Response::Error(concat2("bad request: ", error)), activity: None }
}

/// Where something was moved to, as the log names it: the root has a name of its own.
pub open spec fn destination(new_parent: Seq<char>) -> Seq<char> {
    if new_parent.len() == 0 {
        "My files"@
    } else {
        new_parent
    }
}

fn destination_text(new_parent: &str) -> (r: &str)
    ensures
        r@ == destination(new_parent@),
{
    if new_parent.is_empty() {
        "My files"
    } else {
        new_parent
    }
}

fn empty_text() -> (r: String)
    ensures
        r@ == Seq::<char>::empty(),
{
    let s: String = String::new();
    assert(s@ =~= Seq::<char>::empty());
    s
}

/// A line of the log for something that went well.
pub open spec fn well(kind: ActivityKind, target: Seq<char>, detail: Seq<char>) -> Option<Logged> {
    Some(Logged { kind, target, detail, ok: true })
}

/// A line of the log for something that failed.
pub open spec fn ill(kind: ActivityKind, target: Seq<char>, detail: Seq<char>) -> Option<Logged> {
    Some(Logged { kind, target, detail, ok: false })
}

/// Whether an outcome is one that the request can have.
pub open spec fn can_have(req: Request, outcome: Outcome) -> bool {
    outcome is Failed || match req {
        Request::Pin { .. } => outcome is Named,
        Request::Unpin { .. } => outcome is Named,
        Request::UploadPhoto => outcome is Named,
        Request::Rename { .. } => outcome is Named,
        Request::Move { .. } => outcome is Named,
        Request::Delete { .. } => outcome is Named,
        Request::CreateFolder { .. } => outcome is Named,
        Request::UploadFile { .. } => outcome is Named,
        Request::SetSyncFolderMode => outcome is Named,
        Request::Restore => outcome is Count,
        Request::DeleteForever => outcome is Count,
        Request::EmptyTrash => outcome is Count,
        Request::PurgeCache => outcome is Count,
        Request::ShareNode { .. } => outcome is Invited,
        Request::RefreshDir { .. } => outcome is Done,
        Request::RefreshTrash => outcome is Done,
        Request::RefreshPhotos => outcome is Done,
        Request::UploadPaths { .. } => outcome is Done,
        Request::SetCacheBudget { .. } => outcome is Done || outcome is Unsaved || outcome
            is Unconfigured,
        Request::RenameDevice { .. } => outcome is Done,
        Request::DeleteDevice => outcome is Done,
        Request::AddSyncFolder { .. } => outcome is Done,
        Request::RemoveSyncFolder => outcome is Done,
        Request::SyncNow { .. } => outcome is Done,
        Request::UpdateShareRole { .. } => outcome is Done,
        Request::RemoveShareEntry { .. } => outcome is Done,
        Request::RemovePublicLink { .. } => outcome is Done,
        Request::LeaveShared => outcome is Done,
        Request::AcceptInvitation => outcome is Done,
        Request::RejectInvitation => outcome is Done,
        Request::CreateBookmark => outcome is Done,
        Request::DeleteBookmark => outcome is Done,
        _ => outcome is Data,
    }
}

/// How a request that failed is answered. A failed change is logged; a failed query is
/// not.
pub open spec fn failed_reply(req: Request, e: Seq<char>) -> (Said, Option<Logged>) {
    match req {
        Request::UploadPhoto => (Said::Error("upload photo failed: "@ + e), None),
        Request::Rename { path } => (Said::Error(e), ill(ActivityKind::Rename, path@, e)),
        Request::Move { path, .. } => (Said::Error(e), ill(ActivityKind::Move, path@, e)),
        Request::Delete { path } => (Said::Error(e), ill(ActivityKind::Trash, path@, e)),
        Request::CreateFolder { name, .. } => (
            Said::Error(e),
            ill(ActivityKind::CreateFolder, name@, e),
        ),
        Request::UploadFile { name, .. } => (Said::Error(e), ill(ActivityKind::Upload, name@, e)),
        Request::ShareNode { path, .. } => (Said::Error(e), ill(ActivityKind::Share, path@, e)),
        Request::CreatePublicLink { path } => (
            Said::Error(e),
            ill(ActivityKind::PublicLink, path@, e),
        ),
        _ => (Said::Error(e), None),
    }
}

/// How a request that was carried out is answered.
pub open spec fn done_reply(req: Request, outcome: Outcome) -> (Said, Option<Logged>) {
    match req {
        Request::Pin { .. } => {
            let name = outcome->Named_0;
            (Said::Message("pinned "@ + name@), None)
        },
        Request::Unpin { .. } => {
            let name = outcome->Named_0;
            (Said::Message("unpinned "@ + name@), None)
        },
        Request::RefreshDir { .. } => (Said::Message("refreshed"@), None),
        Request::RefreshTrash => (Said::Message("refreshed"@), None),
        Request::RefreshPhotos => (Said::Message("refreshed"@), None),
        Request::UploadPhoto => {
            let name = outcome->Named_0;
            (Said::Message("uploaded photo with uid "@ + name@), None)
        },
        Request::Rename { path } => {
            let name = outcome->Named_0;
            (
                Said::Message("renamed to "@ + name@),
                well(ActivityKind::Rename, name@, "was "@ + path@),
            )
        },
        Request::Move { new_parent, .. } => {
            let name = outcome->Named_0;
            (
                Said::Message("moved "@ + name@),
                well(ActivityKind::Move, name@, "to "@ + destination(new_parent@)),
            )
        },
        Request::Delete { .. } => {
            let name = outcome->Named_0;
            (
                Said::Message("trashed "@ + name@),
                well(ActivityKind::Trash, name@, Seq::<char>::empty()),
            )
        },
        Request::CreateFolder { .. } => {
            let name = outcome->Named_0;
            (
                Said::Message("created folder "@ + name@),
                well(ActivityKind::CreateFolder, name@, Seq::<char>::empty()),
            )
        },
        Request::UploadFile { .. } => {
            let name = outcome->Named_0;
            (
                Said::Message("uploaded "@ + name@),
                well(ActivityKind::Upload, name@, Seq::<char>::empty()),
            )
        },
        Request::UploadPaths { count, .. } => (
            Said::Message("uploading "@ + decimal(count as nat) + " item(s)"@),
            None,
        ),
        Request::Restore => {
            let n = outcome->Count_0;
            (
                Said::Message("restored "@ + decimal(n as nat) + " item(s)"@),
                well(ActivityKind::Restore, decimal(n as nat) + " item(s)"@, Seq::<char>::empty()),
            )
        },
        Request::DeleteForever => {
            let n = outcome->Count_0;
            (
                Said::Message("permanently deleted "@ + decimal(n as nat) + " item(s)"@),
                well(
                    ActivityKind::DeleteForever,
                    decimal(n as nat) + " item(s)"@,
                    Seq::<char>::empty(),
                ),
            )
        },
        Request::EmptyTrash => {
            let n = outcome->Count_0;
            (
                Said::Message("emptied trash ("@ + decimal(n as nat) + " item(s))"@),
                well(
                    ActivityKind::EmptyTrash,
                    decimal(n as nat) + " item(s)"@,
                    Seq::<char>::empty(),
                ),
            )
        },
        Request::PurgeCache => {
            let n = outcome->Count_0;
            (Said::Message("purged "@ + mebibytes(n as nat) + " MiB of unpinned cache"@), None)
        },
        Request::SetCacheBudget { bytes } => match outcome {
            Outcome::Unsaved(e) => (
                Said::Error("budget applied but config write failed: "@ + e@),
                None,
            ),
            Outcome::Unconfigured(e) => (
                Said::Error("budget applied but config unavailable: "@ + e@),
                None,
            ),
            _ => (
                Said::Message("cache budget set to "@ + decimal(bytes as nat) + " bytes"@),
                None,
            ),
        },
        Request::RenameDevice { name } => (
            Said::Message("renamed device to "@ + name@),
            None,
        ),
        Request::DeleteDevice => (Said::Message("device deleted"@), None),
        Request::AddSyncFolder { local_path } => (Said::Message("adding "@ + local_path@), None),
        Request::RemoveSyncFolder => (Said::Message("removed synced folder"@), None),
        Request::SetSyncFolderMode => {
            let name = outcome->Named_0;
            (Said::Message(name@), well(ActivityKind::Upload, name@, Seq::<char>::empty()))
        },
        Request::SyncNow { id } => (
            Said::Message(
                match id {
                    Some(i) => "reconciling folder "@ + signed_decimal(i as int),
                    None => "reconciling all folders"@,
                },
            ),
            None,
        ),
        Request::ShareNode { path, role } => {
            let proton = outcome->proton as nat;
            let external = outcome->external as nat;
            (
                Said::Message(
                    "invited "@ + decimal(proton) + " Proton and "@ + decimal(external)
                        + " external user(s)"@,
                ),
                well(
                    ActivityKind::Share,
                    path@,
                    decimal((proton + external) as nat) + " recipient(s) as "@ + role@,
                ),
            )
        },
        Request::UpdateShareRole { role, .. } => (Said::Message("role updated to "@ + role@), None),
        Request::RemoveShareEntry { path } => (
            Said::Message("removed"@),
            well(ActivityKind::Unshare, path@, "access removed"@),
        ),
        Request::CreatePublicLink { path } => (
            Said::Payload,
            well(ActivityKind::PublicLink, path@, "link created"@),
        ),
        Request::RemovePublicLink { path } => (
            Said::Message("public link removed"@),
            well(ActivityKind::Unshare, path@, "link removed"@),
        ),
        Request::LeaveShared => (
            Said::Message("left shared item"@),
            well(ActivityKind::Unshare, "shared item"@, "left"@),
        ),
        Request::AcceptInvitation => (Said::Message("invitation accepted"@), None),
        Request::RejectInvitation => (Said::Message("invitation rejected"@), None),
        Request::CreateBookmark => (Said::Message("bookmark saved"@), None),
        Request::DeleteBookmark => (Said::Message("bookmark removed"@), None),
        _ => (Said::Payload, None),
    }
}

/// What a request is answered, and what is logged of it.
pub open spec fn reply_to(req: Request, outcome: Outcome) -> (Said, Option<Logged>) {
    match outcome {
        Outcome::Failed(e) => failed_reply(req, e@),
        _ => done_reply(req, outcome),
    }
}

fn plain(text: String) -> (r: Reply)
    ensures
        r.is((Said::Message(text@), None)),
{
    Reply { response: Response::Message(text), activity: None }
}

fn failed(text: String) -> (r: Reply)
    ensures
        r.is((Said::Error(text@), None)),
{
    Reply { response: Response::Error(text), activity: None }
}

fn payload() -> (r: Reply)
    ensures
        r.is((Said::Payload, None)),
{
    Reply { response: Response::Payload, activity: None }
}

fn logged(text: String, kind: ActivityKind, target: String, detail: String) -> (r: Reply)
    ensures
        r.is((Said::Message(text@), well(kind, target@, detail@))),
{
    Reply {
        response: Response::Message(text),
        activity: Some(Activity { kind, target, detail, ok: true }),
    }
}

fn logged_payload(kind: ActivityKind, target: String, detail: String) -> (r: Reply)
    ensures
        r.is((Said::Payload, well(kind, target@, detail@))),
{
    Reply {
        response: Response::Payload,
        activity: Some(Activity { kind, target, detail, ok: true }),
    }
}

fn logged_failure(text: String, kind: ActivityKind, target: String) -> (r: Reply)
    ensures
        r.is((Said::Error(text@), ill(kind, target@, text@))),
{
    let detail = text.clone();
    Reply {
        response: Response::Error(text),
        activity: Some(Activity { kind, target, detail, ok: false }),
    }
}

fn reply_failed(req: &Request, e: String) -> (r: Reply)
    ensures
        r.is(failed_reply(*req, e@)),
{
    match req {
        Request::UploadPhoto => failed(concat2("upload photo failed: ", e.as_str())),
        Request::Rename { path } => logged_failure(e, ActivityKind::Rename, path.clone()),
        Request::Move { path, .. } => logged_failure(e, ActivityKind::Move, path.clone()),
        Request::Delete { path } => logged_failure(e, ActivityKind::Trash, path.clone()),
        Request::CreateFolder { name, .. } => logged_failure(
            e,
            ActivityKind::CreateFolder,
            name.clone(),
        ),
        Request::UploadFile { name, .. } => logged_failure(e, ActivityKind::Upload, name.clone()),
        Request::ShareNode { path, .. } => logged_failure(e, ActivityKind::Share, path.clone()),
        Request::CreatePublicLink { path } => logged_failure(
            e,
            ActivityKind::PublicLink,
            path.clone(),
        ),
        _ => failed(e),
    }
}

/// Whether the number of those invited can be told.
pub open spec fn countable(outcome: Outcome) -> bool {
    outcome matches Outcome::Invited { proton, external } ==> proton + external <= u64::MAX
}

/// Whether a request can end as `outcome` says.
pub fn can_end(req: &Request, outcome: &Outcome) -> (r: bool)
    ensures
        r == (can_have(*req, *outcome) && countable(*outcome)),
{
    match outcome {
        Outcome::Failed(_) => true,
        Outcome::Named(_) => match req {
            Request::Pin { .. } | Request::Unpin { .. } | Request::UploadPhoto
            | Request::Rename { .. } | Request::Move { .. } | Request::Delete { .. }
            | Request::CreateFolder { .. } | Request::UploadFile { .. }
            | Request::SetSyncFolderMode => true,
            _ => false,
        },
        Outcome::Count(_) => match req {
            Request::Restore | Request::DeleteForever | Request::EmptyTrash
            | Request::PurgeCache => true,
            _ => false,
        },
        Outcome::Invited { proton, external } => match req {
            Request::ShareNode { .. } => *proton <= u64::MAX - *external,
            _ => false,
        },
        Outcome::Unsaved(_) | Outcome::Unconfigured(_) => match req {
            Request::SetCacheBudget { .. } => true,
            _ => false,
        },
        Outcome::Done => match req {
            Request::RefreshDir { .. } | Request::RefreshTrash | Request::RefreshPhotos
            | Request::UploadPaths { .. } | Request::SetCacheBudget { .. }
            | Request::RenameDevice { .. } | Request::DeleteDevice
            | Request::AddSyncFolder { .. } | Request::RemoveSyncFolder
            | Request::SyncNow { .. } | Request::UpdateShareRole { .. }
            | Request::RemoveShareEntry { .. } | Request::RemovePublicLink { .. }
            | Request::LeaveShared | Request::AcceptInvitation | Request::RejectInvitation
            | Request::CreateBookmark | Request::DeleteBookmark => true,
            _ => false,
        },
        Outcome::Data => match req {
            Request::Status | Request::ListPins | Request::ListDir { .. }
            | Request::PhotosTimeline | Request::PhotoMonths | Request::PhotoThumbs
            | Request::OpenPhoto { .. } | Request::OpenFile { .. } | Request::Search
            | Request::SearchLocal | Request::ListTrash | Request::GetQueueStatus
            | Request::ListDevices | Request::ListSyncFolders | Request::ListShare { .. }
            | Request::CreatePublicLink { .. } | Request::ListSharedWithMe
            | Request::ListInvitations | Request::ListBookmarks | Request::ListSharedByMe
            | Request::ListActivity => true,
            _ => false,
        },
    }
}

/// What a request is answered, and what is logged of it.
pub fn reply(req: &Request, outcome: Outcome) -> (r: Reply)
    requires
        can_have(*req, outcome),
        countable(outcome),
    ensures
        r.is(reply_to(*req, outcome)),
{
    if let Outcome::Failed(e) = outcome {
        return reply_failed(req, e);
    }
    match req {
        Request::Pin { .. } => match outcome {
            Outcome::Named(name) => plain(concat2("pinned ", name.as_str())),
            _ => payload(),
        },
        Request::Unpin { .. } => match outcome {
            Outcome::Named(name) => plain(concat2("unpinned ", name.as_str())),
            _ => payload(),
        },
        Request::RefreshDir { .. } => plain("refreshed".to_owned()),
        Request::RefreshTrash => plain("refreshed".to_owned()),
        Request::RefreshPhotos => plain("refreshed".to_owned()),
        Request::UploadPhoto => match outcome {
            Outcome::Named(name) => plain(concat2("uploaded photo with uid ", name.as_str())),
            _ => payload(),
        },
        Request::Rename { path } => match outcome {
            Outcome::Named(name) => logged(
                concat2("renamed to ", name.as_str()),
                ActivityKind::Rename,
                name.as_str().to_owned(),
                concat2("was ", path.as_str()),
            ),
            _ => payload(),
        },
        Request::Move { new_parent, .. } => match outcome {
            Outcome::Named(name) => logged(
                concat2("moved ", name.as_str()),
                ActivityKind::Move,
                name.as_str().to_owned(),
                concat2("to ", destination_text(new_parent.as_str())),
            ),
            _ => payload(),
        },
        Request::Delete { .. } => match outcome {
            Outcome::Named(name) => logged(
                concat2("trashed ", name.as_str()),
                ActivityKind::Trash,
                name.as_str().to_owned(),
                empty_text(),
            ),
            _ => payload(),
        },
        Request::CreateFolder { .. } => match outcome {
            Outcome::Named(name) => logged(
                concat2("created folder ", name.as_str()),
                ActivityKind::CreateFolder,
                name.as_str().to_owned(),
                empty_text(),
            ),
            _ => payload(),
        },
        Request::UploadFile { .. } => match outcome {
            Outcome::Named(name) => logged(
                concat2("uploaded ", name.as_str()),
                ActivityKind::Upload,
                name.as_str().to_owned(),
                empty_text(),
            ),
            _ => payload(),
        },
        Request::UploadPaths { count, .. } => plain(
            concat3("uploading ", decimal_text(*count).as_str(), " item(s)"),
        ),
        Request::Restore => match outcome {
            Outcome::Count(n) => logged(
                concat3("restored ", decimal_text(n).as_str(), " item(s)"),
                ActivityKind::Restore,
                concat2(decimal_text(n).as_str(), " item(s)"),
                empty_text(),
            ),
            _ => payload(),
        },
        Request::DeleteForever => match outcome {
            Outcome::Count(n) => logged(
                concat3("permanently deleted ", decimal_text(n).as_str(), " item(s)"),
                ActivityKind::DeleteForever,
                concat2(decimal_text(n).as_str(), " item(s)"),
                empty_text(),
            ),
            _ => payload(),
        },
        Request::EmptyTrash => match outcome {
            Outcome::Count(n) => logged(
                concat3("emptied trash (", decimal_text(n).as_str(), " item(s))"),
                ActivityKind::EmptyTrash,
                concat2(decimal_text(n).as_str(), " item(s)"),
                empty_text(),
            ),
            _ => payload(),
        },
        Request::PurgeCache => match outcome {
            Outcome::Count(n) => plain(
                concat3("purged ", mebibytes_text(n).as_str(), " MiB of unpinned cache"),
            ),
            _ => payload(),
        },
        Request::SetCacheBudget { bytes } => match outcome {
            Outcome::Unsaved(e) => failed(
                concat2("budget applied but config write failed: ", e.as_str()),
            ),
            Outcome::Unconfigured(e) => failed(
                concat2("budget applied but config unavailable: ", e.as_str()),
            ),
            _ => plain(concat3("cache budget set to ", decimal_text(*bytes).as_str(), " bytes")),
        },
        Request::RenameDevice { name } => plain(concat2("renamed device to ", name.as_str())),
        Request::DeleteDevice => plain("device deleted".to_owned()),
        Request::AddSyncFolder { local_path } => plain(concat2("adding ", local_path.as_str())),
        Request::RemoveSyncFolder => plain("removed synced folder".to_owned()),
        Request::SetSyncFolderMode => match outcome {
            Outcome::Named(name) => logged(
                name.as_str().to_owned(),
                ActivityKind::Upload,
                name.as_str().to_owned(),
                empty_text(),
            ),
            _ => payload(),
        },
        Request::SyncNow { id } => match id {
            Some(i) => plain(concat2("reconciling folder ", signed_decimal_text(*i).as_str())),
            None => plain("reconciling all folders".to_owned()),
        },
        Request::ShareNode { path, role } => match outcome {
            Outcome::Invited { proton, external } => logged(
                concat5(
                    "invited ",
                    decimal_text(proton).as_str(),
                    " Proton and ",
                    decimal_text(external).as_str(),
                    " external user(s)",
                ),
                ActivityKind::Share,
                path.clone(),
                concat3(
                    decimal_text(proton + external).as_str(),
                    " recipient(s) as ",
                    role.as_str(),
                ),
            ),
            _ => payload(),
        },
        Request::UpdateShareRole { role, .. } => plain(concat2("role updated to ", role.as_str())),
        Request::RemoveShareEntry { path } => logged(
            "removed".to_owned(),
            ActivityKind::Unshare,
            path.as_str().to_owned(),
            "access removed".to_owned(),
        ),
        Request::CreatePublicLink { path } => logged_payload(
            ActivityKind::PublicLink,
            path.as_str().to_owned(),
            "link created".to_owned(),
        ),
        Request::RemovePublicLink { path } => logged(
            "public link removed".to_owned(),
            ActivityKind::Unshare,
            path.as_str().to_owned(),
            "link removed".to_owned(),
        ),
        Request::LeaveShared => logged(
            "left shared item".to_owned(),
            ActivityKind::Unshare,
            "shared item".to_owned(),
            "left".to_owned(),
        ),
        Request::AcceptInvitation => plain("invitation accepted".to_owned()),
        Request::RejectInvitation => plain("invitation rejected".to_owned()),
        Request::CreateBookmark => plain("bookmark saved".to_owned()),
        Request::DeleteBookmark => plain("bookmark removed".to_owned()),
        _ => payload(),
    }
}

/// A change that fails is answered with its error, and one that is logged when it
/// works is never logged as having worked when it failed.
pub proof fn law_failures_are_told(req: Request, e: String)
    ensures
        reply_to(req, Outcome::Failed(e)).0 is Error,
        reply_to(req, Outcome::Failed(e)).1 matches Some(l) ==> !l.ok,
{
}

/// What a bulk upload came to.
#[derive(Debug, Clone, Copy, PartialEq, Eq, Structural)]
pub struct UploadStats {
    pub uploaded: usize,
    pub bytes: u64,
    pub folders: usize,
    pub failed: usize,
}

/// A number of things.
pub open spec fn counted(n: nat, one: Seq<char>, many: Seq<char>) -> Seq<char> {
    decimal(n) + " "@ + (if n == 1 {
        one
    } else {
        many
    })
}

/// What the log says of a bulk upload: how much went where, how long it took, and how
/// much failed.
pub open spec fn upload_summary(
    stats: UploadStats,
    dest: Option<Seq<char>>,
    secs: nat,
    millis: nat,
) -> Logged {
    let target = counted(stats.uploaded as nat, "file"@, "files"@) + " to "@ + (match dest {
        Some(d) => d,
        None => "your Drive"@,
    });
    let size = shown_bytes(stats.bytes as nat);
    let with_folders = if stats.folders > 0 {
        size + " · "@ + counted(stats.folders as nat, "folder"@, "folders"@)
    } else {
        size
    };
    let with_time = with_folders + " · "@ + shown_duration(secs, millis);
    let detail = if stats.failed > 0 {
        with_time + " · "@ + (decimal(stats.failed as nat) + " failed"@)
    } else {
        with_time
    };
    Logged { kind: ActivityKind::Upload, target, detail, ok: stats.failed == 0 }
}

/// What the log says of a bulk upload into the folder at `parent`.
pub fn summarize_upload(stats: UploadStats, parent: &str, secs: u64, millis: u32) -> (r: Activity)
    ensures
        r@ == upload_summary(stats, path_file_name(parent@), secs as nat, millis as nat),
{
    let dest = match file_name(parent) {
        Some(d) => d,
        None => "your Drive".to_owned(),
    };
    let target = concat3(
        count_noun(stats.uploaded, "file", "files").as_str(),
        " to ",
        dest.as_str(),
    );
    let mut detail = human_bytes(stats.bytes);
    if stats.folders > 0 {
        detail = concat3(
            detail.as_str(),
            " · ",
            count_noun(stats.folders, "folder", "folders").as_str(),
        );
    }
    detail = concat3(detail.as_str(), " · ", human_duration(secs, millis).as_str());
    if stats.failed > 0 {
        let failed = concat2(decimal_text(stats.failed as u64).as_str(), " failed");
        detail = concat3(detail.as_str(), " · ", failed.as_str());
    }
    Activity { kind: ActivityKind::Upload, target, detail, ok: stats.failed == 0 }
}

/// What the log says of background work that failed.
pub fn summarize_failure(what: &str, error: &str) -> (r: Activity)
    ensures
        r@ == (Logged {
            kind: ActivityKind::Upload,
            target: what@,
            detail: error@,
            ok: false,
        }),
{
    Activity {
        kind: ActivityKind::Upload,
        target: what.to_owned(),
        detail: error.to_owned(),
        ok: false,
    }
}

/// What the log says of a folder that is now synced.
pub fn summarize_added(local_path: &str, state: &str, secs: u64, millis: u32) -> (r: Activity)
    ensures
        r@ == (Logged {
            kind: ActivityKind::Upload,
            target: "synced "@ + base_name_of(local_path@),
            detail: shown_duration(secs as nat, millis as nat),
            ok: state@ != "error"@,
        }),
{
    Activity {
        kind: ActivityKind::Upload,
        target: concat2("synced ", base_name(local_path).as_str()),
        detail: human_duration(secs, millis),
        ok: !same_text(state, "error"),
    }
}

/// The counts of queued work in a status: a negative one is nothing.
pub fn queued_counts(uploads: i64, changes: i64) -> (r: (u64, u64))
    ensures
        r.0 == (if uploads < 0 {
            0
        } else {
            uploads as int
        }),
        r.1 == (if changes < 0 {
            0
        } else {
            changes as int
        }),
{
    let a: u64 = if uploads < 0 {
        0
    } else {
        uploads as u64
    };
    let b: u64 = if changes < 0 {
        0
    } else {
        changes as u64
    };
    (a, b)
}

/// Every reply carries what came of its request. A failure is an error that ends in its
/// reason, and is never logged as having worked; data is handed over as data; a name ends
/// the message that tells it; and nothing that worked is told as an error.
pub proof fn law_replies_carry_the_outcome(req: Request, outcome: Outcome)
    requires
        can_have(req, outcome),
        countable(outcome),
    ensures
        ({
            let (said, log) = reply_to(req, outcome);
            &&& said is Error <==> outcome is Failed || outcome is Unsaved || outcome
                is Unconfigured
            &&& said is Payload <==> outcome is Data
            &&& outcome matches Outcome::Failed(e) ==> e@.is_suffix_of(said->Error_0)
            &&& outcome matches Outcome::Unsaved(e) ==> e@.is_suffix_of(said->Error_0)
            &&& outcome matches Outcome::Unconfigured(e) ==> e@.is_suffix_of(said->Error_0)
            &&& outcome matches Outcome::Named(n) ==> n@.is_suffix_of(said->Message_0)
            &&& log is Some ==> (log->0.ok <==> !(outcome is Failed))
            &&& (log is Some && outcome is Failed) ==> log->0.detail == (outcome->Failed_0)@
            &&& (log is Some && outcome is Named) ==> log->0.target == (outcome->Named_0)@
            &&& (log is Some && outcome is Count) ==> log->0.target == decimal(
                outcome->Count_0 as nat,
            ) + " item(s)"@
        }),
{
}

/// What is logged of a change is logged as that change, whether it worked or not.
pub proof fn law_changes_are_logged_as_what_they_are(req: Request, outcome: Outcome)
    requires
        can_have(req, outcome),
    ensures
        ({
            let log = reply_to(req, outcome).1;
            &&& req is Rename ==> log is Some && log->0.kind is Rename
            &&& req is Move ==> log is Some && log->0.kind is Move
            &&& req is Delete ==> log is Some && log->0.kind is Trash
            &&& req is CreateFolder ==> log is Some && log->0.kind is CreateFolder
            &&& req is UploadFile ==> log is Some && log->0.kind is Upload
            &&& req is ShareNode ==> log is Some && log->0.kind is Share
            &&& req is CreatePublicLink ==> log is Some && log->0.kind is PublicLink
            &&& req is Restore && !(outcome is Failed) ==> log is Some && log->0.kind is Restore
            &&& req is DeleteForever && !(outcome is Failed) ==> log is Some && log->0.kind
                is DeleteForever
            &&& req is EmptyTrash && !(outcome is Failed) ==> log is Some && log->0.kind
                is EmptyTrash
            &&& (req is RemoveShareEntry || req is RemovePublicLink || req is LeaveShared) && !(
            outcome is Failed) ==> log is Some && log->0.kind is Unshare
            // A question is not logged.
            &&& outcome is Data && !(req is CreatePublicLink) ==> log is None
            &&& log is Some && (log->0.kind is Trash || log->0.kind is DeleteForever
                || log->0.kind is EmptyTrash) ==> req is Delete || req is DeleteForever || req
                is EmptyTrash
        }),
{
}

/// A request that changes or reads what is at a path names that path, and only a move names
/// a second one.
pub proof fn law_requests_name_their_paths(req: Request)
    ensures
        second_path_in(req) is Some <==> req is Move,
        path_in(req) is None ==> !(req is Rename || req is Move || req is Delete || req
            is CreateFolder || req is UploadFile || req is UploadPaths || req is OpenFile || req
            is Pin || req is Unpin || req is ListDir || req is RefreshDir || req is ShareNode
            || req is ListShare || req is UpdateShareRole || req is RemoveShareEntry || req
            is CreatePublicLink || req is RemovePublicLink),
        req is Delete ==> path_in(req) == Some(req->Delete_path@),
        req is Rename ==> path_in(req) == Some(req->Rename_path@),
        req is Move ==> path_in(req) == Some(req->Move_path@) && second_path_in(req) == Some(
            req->new_parent@,
        ),
        req is CreateFolder ==> path_in(req) == Some(req->CreateFolder_parent@),
        req is UploadFile ==> path_in(req) == Some(req->UploadFile_parent@),
        req is UploadPaths ==> path_in(req) == Some(req->UploadPaths_parent@),
        req is OpenFile ==> path_in(req) == Some(req->OpenFile_path@),
        req is ListDir ==> path_in(req) == Some(req->ListDir_path@),
        req is ShareNode ==> path_in(req) == Some(req->ShareNode_path@),
{
}

/// A move with no folder named goes to the top.
pub proof fn law_moves_name_their_destination(new_parent: Seq<char>)
    ensures
        destination(new_parent).len() > 0,
        new_parent.len() > 0 ==> destination(new_parent) == new_parent,
{
    reveal_strlit("My files");
}

/// An upload is told to have worked just where no file failed; it begins with how many
/// files went, counts one as one, and says how many failed where some did.
pub proof fn law_uploads_are_summed_up(
    stats: UploadStats,
    dest: Option<Seq<char>>,
    secs: nat,
    millis: nat,
)
    ensures
        ({
            let l = upload_summary(stats, dest, secs, millis);
            &&& l.kind is Upload
            &&& l.ok <==> stats.failed == 0
            &&& stats.uploaded == 1 ==> ("1"@ + " "@ + "file"@).is_prefix_of(l.target)
            &&& stats.uploaded != 1 ==> (decimal(stats.uploaded as nat) + " "@
                + "files"@).is_prefix_of(l.target)
            &&& dest is Some ==> (dest->0).is_suffix_of(l.target)
            &&& shown_bytes(stats.bytes as nat).is_prefix_of(l.detail)
            &&& stats.failed > 0 ==> (decimal(stats.failed as nat) + " failed"@).is_suffix_of(
                l.detail,
            )
            &&& stats.failed == 0 ==> shown_duration(secs, millis).is_suffix_of(l.detail)
        }),
{
    assert(decimal(1) =~= "1"@) by {
        reveal_strlit("1");
        reveal_with_fuel(decimal, 3);
    }
}

/// A path is taken just where it lies below the mountpoint, and is then told by what it is
/// below it.
pub proof fn law_paths_are_taken_below_the_mount(
    mountpoint: Seq<char>,
    path: Seq<char>,
    parts: Option<Vec<String>>,
)
    ensures
        lies_in(mountpoint, Some(path)) <==> mount_relative(mountpoint, path) is Some,
        lies_in(mountpoint, None),
        lies_at(mountpoint, Some(path), parts) ==> parts is Some && lies_in(mountpoint, Some(path))
            && mount_relative(mountpoint, path)->0 == texts((parts->0)@),
        path.is_prefix_of(outside(path)),
{
}

/// Every request can fail, and ends in one way where it does not; only a budget can be set
/// without being kept.
pub proof fn law_requests_end_one_way(req: Request, a: Outcome, b: Outcome)
    requires
        can_have(req, a),
        can_have(req, b),
        !(a is Failed),
        !(b is Failed),
    ensures
        req is SetCacheBudget || ((a is Named <==> b is Named) && (a is Count <==> b is Count) && (a
            is Done <==> b is Done) && (a is Data <==> b is Data) && (a is Invited <==> b
            is Invited)),
        a is Unsaved || a is Unconfigured ==> req is SetCacheBudget,
        req is SetCacheBudget ==> a is Done || a is Unsaved || a is Unconfigured,
        a is Invited ==> req is ShareNode,
        a is Count ==> req is Restore || req is DeleteForever || req is EmptyTrash || req
            is PurgeCache,
{
}

/// Every request can fail, and a request can end as it is said to.
pub proof fn law_every_request_can_end(req: Request, o: Outcome)
    ensures
        o is Failed ==> can_have(req, o),
        req is Delete && o is Named ==> can_have(req, o),
        req is Status && o is Data ==> can_have(req, o),
        req is SetCacheBudget && (o is Done || o is Unsaved || o is Unconfigured) ==> can_have(
            req,
            o,
        ),
        req is Restore && o is Count ==> can_have(req, o),
        req is SyncNow && o is Done ==> can_have(req, o),
{
}

/// The time and the size are all that is told of an upload of files alone that all went.
pub proof fn law_plain_uploads_tell_size_and_time(
    stats: UploadStats,
    dest: Option<Seq<char>>,
    secs: nat,
    millis: nat,
)
    requires
        stats.failed == 0,
    ensures
        stats.folders == 0 ==> upload_summary(stats, dest, secs, millis).detail == shown_bytes(
            stats.bytes as nat,
        ) + " · "@ + shown_duration(secs, millis),
        stats.folders > 0 ==> (shown_bytes(stats.bytes as nat) + " · "@ + counted(
            stats.folders as nat,
            "folder"@,
            "folders"@,
        )).is_prefix_of(upload_summary(stats, dest, secs, millis).detail),
{
}

/// A reply is what it says and what it logs.
pub proof fn law_replies_are_what_they_say(r: Reply, said: Said, log: Option<Logged>)
    ensures
        r.is((said, log)) <==> r.says() == said && r.logs() == log,
        r.response is Error <==> r.says() is Error,
        r.response is Message <==> r.says() is Message,
        r.response is Payload <==> r.says() is Payload,
        r.response is Message ==> r.says()->Message_0 == r.response->Message_0@,
        r.response is Error ==> r.says()->Error_0 == r.response->Error_0@,
        r.logs() is Some <==> r.activity is Some,
        r.activity is Some ==> r.logs()->0.ok == r.activity->0.ok && r.logs()->0.target
            == r.activity->0.target@ && r.logs()->0.kind == r.activity->0.kind
            && r.logs()->0.detail == r.activity->0.detail@,
{
}

} // verus!

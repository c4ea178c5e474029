//! This machine as a device of the account, and the folders it keeps in step.

use crate::error::{CoreError, ErrorKind};
use crate::lists::{first_where, last_where, lemma_first_where};
use crate::modes::StoredSyncFolder;
use crate::node::Node;
use crate::ops::opt_view;
use crate::paths::{file_name, path_file_name};
use crate::sorting::{law_stable_sort_sorts, sort_stable, stable_sort, strict_weak};
use crate::text::{concat2, concat3, same_text, trim, trimmed};
use crate::uid::{parse_uid, uid_written, NodeUid};
use vstd::prelude::*;

verus! {

/// What a device runs.
#[derive(Debug, Clone, Copy, PartialEq, Eq, Structural)]
pub enum DeviceType {
    Windows,
    MacOs,
    Linux,
}

/// The wire form of a device's type.
pub open spec fn device_type_text(t: DeviceType) -> Seq<char> {
    match t {
        DeviceType::Windows => "Windows"@,
        DeviceType::MacOs => "MacOs"@,
        DeviceType::Linux => "Linux"@,
    }
}

/// The wire form of a device's type.
pub fn device_type_str(t: DeviceType) -> (r: &'static str)
    ensures
        r@ == device_type_text(t),
{
    match t {
        DeviceType::Windows => "Windows",
        DeviceType::MacOs => "MacOs",
        DeviceType::Linux => "Linux",
    }
}

/// A device as the account has it. A name that cannot be decrypted is none.
#[derive(Debug)]
pub struct RemoteDevice {
    pub uid: String,
    pub share_id: String,
    pub root_uid: String,
    pub name: Option<String>,
    pub device_type: DeviceType,
    pub created: i64,
    pub last_sync: Option<i64>,
}

/// A device as it is remembered here.
#[derive(Debug)]
pub struct StoredDevice {
    pub uid: String,
    pub share_id: String,
    pub root_uid: String,
    pub name: String,
    pub created: i64,
}

/// Whether `s` remembers `d` under the name `name`.
pub open spec fn remembers(s: StoredDevice, d: RemoteDevice, name: Seq<char>) -> bool {
    &&& s.uid@ == d.uid@
    &&& s.share_id@ == d.share_id@
    &&& s.root_uid@ == d.root_uid@
    &&& s.name@ == name
    &&& s.created == d.created
}

fn remember(d: &RemoteDevice, name: String) -> (r: StoredDevice)
    ensures
        remembers(r, *d, name@),
{
    StoredDevice {
        uid: d.uid.clone(),
        share_id: d.share_id.clone(),
        root_uid: d.root_uid.clone(),
        name,
        created: d.created,
    }
}

/// The name of a device, or `fallback` where it has none.
pub open spec fn device_name(d: RemoteDevice, fallback: Seq<char>) -> Seq<char> {
    match d.name {
        Some(n) => n@,
        None => fallback,
    }
}

fn name_or(d: &RemoteDevice, fallback: &str) -> (r: String)
    ensures
        r@ == device_name(*d, fallback@),
{
    match &d.name {
        Some(n) => n.clone(),
        None => fallback.to_owned(),
    }
}

/// The device with the given uid.
pub open spec fn device_with(devices: Seq<RemoteDevice>, uid: Seq<char>) -> Option<RemoteDevice> {
    first_where(devices, |d: RemoteDevice| d.uid@ == uid)
}

fn find_device<'a>(devices: &'a Vec<RemoteDevice>, uid: &str) -> (r: Option<&'a RemoteDevice>)
    ensures
        match r {
            Some(d) => device_with(devices@, uid@) == Some(*d),
            None => device_with(devices@, uid@) is None,
        },
{
    let ghost p = |d: RemoteDevice| d.uid@ == uid@;
    let mut i: usize = 0;
    assert(devices@.skip(0) =~= devices@);
    while i < devices.len()
        invariant
            i <= devices@.len(),
            p == (|d: RemoteDevice| d.uid@ == uid@),
            first_where(devices@, p) == first_where(devices@.skip(i as int), p),
        decreases devices@.len() - i,
    {
        proof {
            lemma_first_where(devices@, p, i as int);
        }
        if same_text(devices[i].uid.as_str(), uid) {
            return Some(&devices[i]);
        }
        i = i + 1;
    }
    None
}

/// The device uid that the configuration pins, if it pins one.
pub open spec fn pinned_uid(raw: Option<Seq<char>>) -> Option<Seq<char>> {
    match raw {
        None => None,
        Some(s) => if trim(s).len() == 0 {
            None
        } else {
            Some(trim(s))
        },
    }
}

/// The device uid that the configuration pins, if it pins one: white space is no
/// uid.
pub fn adopted_device_uid(raw: &Option<String>) -> (r: Option<String>)
    ensures
        opt_view(r) == pinned_uid(opt_view(*raw)),
{
    match raw {
        None => None,
        Some(s) => {
            let t = trimmed(s.as_str());
            if t.as_str().is_empty() {
                None
            } else {
                Some(t)
            }
        },
    }
}

/// The name of this machine, from what the kernel says of it.
pub fn this_hostname(raw: &Option<String>) -> (r: String)
    ensures
        r@ == (match pinned_uid(opt_view(*raw)) {
            Some(s) => s,
            None => "Linux device"@,
        }),
{
    match adopted_device_uid(raw) {
        Some(s) => s,
        None => "Linux device".to_owned(),
    }
}

/// A device as a front-end is told of it.
#[derive(Debug)]
pub struct DeviceInfo {
    pub this_device: bool,
    pub adopted: bool,
    pub uid: String,
    pub name: String,
    pub device_type: String,
    pub last_sync: Option<i64>,
}

/// Whether `info` tells of `d`.
pub open spec fn tells_of(
    info: DeviceInfo,
    d: RemoteDevice,
    this_uid: Option<Seq<char>>,
    pinned: Option<Seq<char>>,
) -> bool {
    &&& info.this_device == (this_uid == Some(d.uid@))
    &&& info.adopted == (pinned == Some(d.uid@))
    &&& info.uid@ == d.uid@
    &&& info.name@ == device_name(d, "(unnamed device)"@)
    &&& info.device_type@ == device_type_text(d.device_type)
    &&& info.last_sync == d.last_sync
}

fn opt_is(a: &Option<String>, b: &str) -> (r: bool)
    ensures
        r == (opt_view(*a) == Some(b@)),
{
    match a {
        Some(s) => same_text(s.as_str(), b),
        None => false,
    }
}

/// The account's devices, with this machine's own marked.
pub fn list_devices(
    devices: &Vec<RemoteDevice>,
    this_uid: &Option<String>,
    pinned: &Option<String>,
) -> (r: Vec<DeviceInfo>)
    ensures
        r@.len() == devices@.len(),
        forall|i: int|
            0 <= i < devices@.len() ==> tells_of(
                #[trigger] r@[i],
                devices@[i],
                opt_view(*this_uid),
                opt_view(*pinned),
            ),
{
    let mut out: Vec<DeviceInfo> = Vec::new();
    let mut i: usize = 0;
    while i < devices.len()
        invariant
            i <= devices@.len(),
            out@.len() == i,
            forall|k: int|
                0 <= k < i ==> tells_of(
                    #[trigger] out@[k],
                    devices@[k],
                    opt_view(*this_uid),
                    opt_view(*pinned),
                ),
        decreases devices@.len() - i,
    {
        let d = &devices[i];
        let info = DeviceInfo {
            this_device: opt_is(this_uid, d.uid.as_str()),
            adopted: opt_is(pinned, d.uid.as_str()),
            uid: d.uid.clone(),
            name: name_or(d, "(unnamed device)"),
            device_type: device_type_str(d.device_type).to_owned(),
            last_sync: d.last_sync,
        };
        out.push(info);
        i = i + 1;
    }
    out
}

/// Whether a device can be given the name.
pub fn rename_device(name: &str) -> (r: Result<(), CoreError>)
    ensures
        name@.len() > 0 ==> r is Ok,
        name@.len() == 0 ==> (r matches Err(e) && e.reads(
            ErrorKind::Invalid,
            "device name must not be empty"@,
        )),
{
    if name.is_empty() {
        return Err(CoreError::invalid("device name must not be empty".to_owned()));
    }
    Ok(())
}

/// How it is told that the account has no such device.
pub open spec fn no_device(uid: Seq<char>) -> Seq<char> {
    "no device "@ + uid + " in this account"@
}

/// The device to adopt as this machine's, and what is told of it. A uid that the
/// account does not have is refused.
pub fn adopt_device(devices: &Vec<RemoteDevice>, uid: &str, hostname: &str) -> (r: Result<
    (StoredDevice, String),
    CoreError,
>)
    ensures
        match device_with(devices@, uid@) {
            None => r matches Err(e) && e.reads(ErrorKind::NotFound, no_device(uid@)),
            Some(d) => r matches Ok(out) && remembers(out.0, d, device_name(d, hostname@))
                && out.1@ == "adopted device "@ + device_name(d, hostname@),
        },
{
    match find_device(devices, uid) {
        None => Err(CoreError::not_found(concat3("no device ", uid, " in this account"))),
        Some(d) => {
            let name = name_or(d, hostname);
            let told = concat2("adopted device ", name.as_str());
            proof {
                crate::lists::law_first_where(devices@, |d: RemoteDevice| d.uid@ == uid@);
            }
            Ok((remember(d, name), told))
        },
    }
}

/// What is told when the pin is taken away.
pub fn adoption_cleared() -> (r: String)
    ensures
        r@ == "adoption cleared; device now resolved by hostname"@,
{
    "adoption cleared; device now resolved by hostname".to_owned()
}

/// The device that folders are restored from, other than this machine's own.
pub fn restore_source(devices: &Vec<RemoteDevice>, uid: &str) -> (r: Result<
    StoredDevice,
    CoreError,
>)
    ensures
        match device_with(devices@, uid@) {
            None => r matches Err(e) && e.reads(ErrorKind::NotFound, no_device(uid@)),
            Some(d) => r matches Ok(out) && remembers(
                out,
                d,
                device_name(d, "(unnamed device)"@),
            ),
        },
{
    match find_device(devices, uid) {
        None => Err(CoreError::not_found(concat3("no device ", uid, " in this account"))),
        Some(d) => Ok(remember(d, name_or(d, "(unnamed device)"))),
    }
}

/// How this machine's device is found.
#[derive(Debug)]
pub enum EnsureDevice {
    /// The remembered one is still there.
    Keep,
    /// Remember this one.
    Store(StoredDevice),
    /// Register a new one under the machine's name.
    Create,
}

/// Whether a device is this machine under its name.
pub open spec fn is_this_machine(d: RemoteDevice, hostname: Seq<char>) -> bool {
    d.device_type is Linux && opt_view(d.name) == Some(hostname)
}

/// This machine among the devices, by its name.
pub open spec fn machine_among(devices: Seq<RemoteDevice>, hostname: Seq<char>) -> Option<
    RemoteDevice,
> {
    first_where(devices, |d: RemoteDevice| is_this_machine(d, hostname))
}

fn find_machine<'a>(devices: &'a Vec<RemoteDevice>, hostname: &str) -> (r: Option<
    &'a RemoteDevice,
>)
    ensures
        match r {
            Some(d) => machine_among(devices@, hostname@) == Some(*d),
            None => machine_among(devices@, hostname@) is None,
        },
{
    let ghost p = |d: RemoteDevice| is_this_machine(d, hostname@);
    let mut i: usize = 0;
    assert(devices@.skip(0) =~= devices@);
    while i < devices.len()
        invariant
            i <= devices@.len(),
            p == (|d: RemoteDevice| is_this_machine(d, hostname@)),
            first_where(devices@, p) == first_where(devices@.skip(i as int), p),
        decreases devices@.len() - i,
    {
        proof {
            lemma_first_where(devices@, p, i as int);
        }
        let linux: bool = match devices[i].device_type {
            DeviceType::Linux => true,
            _ => false,
        };
        if linux && opt_is(&devices[i].name, hostname) {
            return Some(&devices[i]);
        }
        i = i + 1;
    }
    None
}

/// How it is told that the pinned device is gone.
pub open spec fn pin_lost(pin: Seq<char>) -> Seq<char> {
    "adopted device "@ + pin
        + " not found in this account; run `pdfs devices adopt --clear` to return to hostname matching"@
}

/// Find this machine's device: the pinned one, which must be there; else the
/// remembered one, if it is still there; else one with this machine's name; else a
/// new one.
pub fn ensure_device(
    devices: &Vec<RemoteDevice>,
    pin: &Option<String>,
    cached: &Option<StoredDevice>,
    hostname: &str,
) -> (r: Result<EnsureDevice, CoreError>)
    ensures
        match opt_view(*pin) {
            Some(p) => match device_with(devices@, p) {
                None => r matches Err(e) && e.reads(ErrorKind::NotFound, pin_lost(p)),
                Some(d) => r matches Ok(EnsureDevice::Store(s)) && remembers(
                    s,
                    d,
                    device_name(d, hostname@),
                ),
            },
            None => if *cached is Some && device_with(devices@, (cached->0).uid@) is Some {
                r matches Ok(EnsureDevice::Keep)
            } else {
                match machine_among(devices@, hostname@) {
                    Some(d) => r matches Ok(EnsureDevice::Store(s)) && remembers(s, d, hostname@),
                    None => r matches Ok(EnsureDevice::Create),
                }
            },
        },
{
    if let Some(p) = pin {
        return match find_device(devices, p.as_str()) {
            None => Err(
                CoreError::not_found(
                    concat3(
                        "adopted device ",
                        p.as_str(),
                        " not found in this account; run `pdfs devices adopt --clear` to return to hostname matching",
                    ),
                ),
            ),
            Some(d) => Ok(EnsureDevice::Store(remember(d, name_or(d, hostname)))),
        };
    }
    if let Some(c) = cached {
        if find_device(devices, c.uid.as_str()).is_some() {
            return Ok(EnsureDevice::Keep);
        }
    }
    match find_machine(devices, hostname) {
        Some(d) => Ok(EnsureDevice::Store(remember(d, hostname.to_owned()))),
        None => Ok(EnsureDevice::Create),
    }
}

/// A pinned device is never replaced by another one, and no second device is
/// registered for a name that the account already has.
pub proof fn law_no_duplicate_device(
    devices: Seq<RemoteDevice>,
    hostname: Seq<char>,
    i: int,
)
    requires
        0 <= i < devices.len(),
        is_this_machine(devices[i], hostname),
    ensures
        machine_among(devices, hostname) is Some,
        is_this_machine(machine_among(devices, hostname)->0, hostname),
{
    crate::lists::law_first_where(devices, |d: RemoteDevice| is_this_machine(d, hostname));
}

/// The folder of the given name among the children of a device's root.
pub open spec fn child_folder(nodes: Seq<Node>, name: Seq<char>) -> Option<Node> {
    first_where(
        nodes,
        |n: Node| n.kind is Folder && !n.trashed && n.name@ == name,
    )
}

/// The folder of the given name among the children of a device's root, if there is
/// one that is not in the trash.
pub fn find_device_child_folder(nodes: &Vec<Node>, name: &str) -> (r: Option<NodeUid>)
    ensures
        r == (match child_folder(nodes@, name@) {
            Some(n) => Some(n.uid),
            None => None::<NodeUid>,
        }),
{
    let ghost p = |n: Node| n.kind is Folder && !n.trashed && n.name@ == name@;
    let mut i: usize = 0;
    assert(nodes@.skip(0) =~= nodes@);
    while i < nodes.len()
        invariant
            i <= nodes@.len(),
            p == (|n: Node| n.kind is Folder && !n.trashed && n.name@ == name@),
            first_where(nodes@, p) == first_where(nodes@.skip(i as int), p),
        decreases nodes@.len() - i,
    {
        proof {
            lemma_first_where(nodes@, p, i as int);
        }
        let n = &nodes[i];
        if n.is_folder() && !n.trashed && same_text(n.name.as_str(), name) {
            return Some(n.uid.clone());
        }
        i = i + 1;
    }
    None
}

/// Whether a folder is synced already.
pub open spec fn synced(folders: Seq<StoredSyncFolder>, path: Seq<char>) -> bool {
    exists|i: int| 0 <= i < folders.len() && (#[trigger] folders[i]).local_path@ == path
}

fn is_synced(folders: &Vec<StoredSyncFolder>, path: &str) -> (r: bool)
    ensures
        r == synced(folders@, path@),
{
    let mut i: usize = 0;
    while i < folders.len()
        invariant
            i <= folders@.len(),
            forall|k: int| 0 <= k < i ==> (#[trigger] folders@[k]).local_path@ != path@,
        decreases folders@.len() - i,
    {
        if same_text(folders[i].local_path.as_str(), path) {
            return true;
        }
        i = i + 1;
    }
    false
}

/// The name that a folder to be synced gets on the device, or why it cannot be
/// synced: it is no directory, it is synced already, its path has no name, or its
/// name is `reserved` for this machine's own profile.
pub fn add_sync_folder(
    path: &str,
    is_dir: bool,
    folders: &Vec<StoredSyncFolder>,
    reserved: &str,
) -> (r: Result<String, CoreError>)
    ensures
        match r {
            Ok(name) => {
                &&& is_dir
                &&& !synced(folders@, path@)
                &&& path_file_name(path@) == Some(name@)
                &&& name@ != reserved@
            },
            Err(e) => if !is_dir {
                e.reads(ErrorKind::Invalid, path@ + " is not a directory"@)
            } else if synced(folders@, path@) {
                e.reads(ErrorKind::Invalid, path@ + " is already synced"@)
            } else if path_file_name(path@) is None {
                e.reads(ErrorKind::Invalid, "unusable folder name: "@ + path@)
            } else {
                &&& path_file_name(path@) == Some(reserved@)
                &&& e.reads(
                    ErrorKind::Invalid,
                    reserved@ + " is reserved for this device's profile backup"@,
                )
            },
        },
{
    if !is_dir {
        return Err(CoreError::invalid(concat2(path, " is not a directory")));
    }
    if is_synced(folders, path) {
        return Err(CoreError::invalid(concat2(path, " is already synced")));
    }
    match file_name(path) {
        None => Err(CoreError::invalid(concat2("unusable folder name: ", path))),
        Some(name) => {
            if same_text(name.as_str(), reserved) {
                return Err(
                    CoreError::invalid(
                        concat2(name.as_str(), " is reserved for this device's profile backup"),
                    ),
                );
            }
            Ok(name)
        },
    }
}

/// The root folder of a device, where its uid can be read.
pub fn device_root(device: &StoredDevice) -> (r: Result<NodeUid, CoreError>)
    ensures
        match uid_written(device.root_uid@) {
            Some(u) => r matches Ok(uid) && uid@ == u,
            None => r matches Err(e) && e.reads(
                ErrorKind::Internal,
                "bad device root uid: "@ + device.root_uid@,
            ),
        },
{
    match parse_uid(device.root_uid.as_str()) {
        Some(uid) => Ok(uid),
        None => Err(
            CoreError::internal(concat2("bad device root uid: ", device.root_uid.as_str())),
        ),
    }
}

/// What a pass is doing.
#[derive(Debug, Clone, Copy, PartialEq, Eq, Structural)]
pub enum SyncPhase {
    Scanning,
    Applying,
}

/// How far a pass over a folder is.
#[derive(Debug)]
pub struct SyncProgress {
    pub phase: SyncPhase,
    pub done: u64,
    pub total: u64,
    pub current: String,
}

impl Clone for SyncProgress {
    fn clone(&self) -> (r: Self)
        ensures
            r == *self,
    {
        SyncProgress {
            phase: self.phase,
            done: self.done,
            total: self.total,
            current: self.current.clone(),
        }
    }
}

/// A synced folder as a front-end is told of it.
#[derive(Debug)]
pub struct SyncFolderInfo {
    pub id: i64,
    pub local_path: String,
    pub remote_uid: String,
    pub mode: String,
    pub pending_mode: Option<String>,
    pub state: String,
    pub last_sync: i64,
    pub progress: Option<SyncProgress>,
    pub paused: bool,
}

/// A synced folder as a front-end is told of it, with how far its pass is.
pub fn sync_folder_info(f: StoredSyncFolder, progress: Option<SyncProgress>, paused: bool) -> (r:
    SyncFolderInfo)
    ensures
        r == (SyncFolderInfo {
            id: f.id,
            local_path: f.local_path,
            remote_uid: f.remote_uid,
            mode: f.mode,
            pending_mode: f.pending_mode,
            state: f.state,
            last_sync: f.last_sync,
            progress,
            paused,
        }),
{
    SyncFolderInfo {
        id: f.id,
        local_path: f.local_path,
        remote_uid: f.remote_uid,
        mode: f.mode,
        pending_mode: f.pending_mode,
        state: f.state,
        last_sync: f.last_sync,
        progress,
        paused,
    }
}

/// A line of what the daemon is busy with.
#[derive(Debug)]
pub struct JobItem {
    pub title: String,
    pub detail: String,
    pub done: u64,
    pub total: u64,
}

/// Whether a folder's path is the one of the folder `id`.
pub open spec fn named(id: i64) -> spec_fn((i64, String)) -> bool {
    |e: (i64, String)| e.0 == id
}

/// The name of a synced folder in such a line. Of several paths with its id the last
/// counts.
pub open spec fn folder_title(names: Seq<(i64, String)>, id: i64) -> Seq<char> {
    match last_where(names, named(id)) {
        None => "folder"@,
        Some(p) => match path_file_name(p.1@) {
            Some(n) => n,
            None => "folder"@,
        },
    }
}

fn title_of(names: &Vec<(i64, String)>, id: i64) -> (r: String)
    ensures
        r@ == folder_title(names@, id),
{
    let ghost p = named(id);
    let mut i: usize = names.len();
    assert(names@.take(i as int) =~= names@);
    while i > 0
        invariant
            i <= names@.len(),
            p == named(id),
            last_where(names@, p) == last_where(names@.take(i as int), p),
        decreases i,
    {
        assert(names@.take(i as int).last() == names@[i - 1]);
        assert(names@.take(i as int).drop_last() =~= names@.take(i - 1));
        if names[i - 1].0 == id {
            return match file_name(names[i - 1].1.as_str()) {
                Some(n) => n,
                None => "folder".to_owned(),
            };
        }
        i = i - 1;
    }
    "folder".to_owned()
}

/// Whether `job` is the line of a pass. The total of a first scan is not known;
/// any other total is at least what is done.
pub open spec fn is_job(job: JobItem, names: Seq<(i64, String)>, pass: (i64, SyncProgress)) -> bool {
    let p = pass.1;
    let most = if p.total < p.done {
        p.done
    } else {
        p.total
    };
    &&& job.done == p.done
    &&& match p.phase {
        SyncPhase::Scanning => {
            &&& job.title@ == "Checking "@ + folder_title(names, pass.0)
            &&& job.detail@ == "Looking for changes"@
            &&& job.total == if p.total == 0 {
                0
            } else {
                most
            }
        },
        SyncPhase::Applying => {
            &&& job.title@ == "Syncing "@ + folder_title(names, pass.0)
            &&& job.detail == p.current
            &&& job.total == most
        },
    }
}

/// The order of passes: by folder.
pub open spec fn pass_before() -> spec_fn((i64, SyncProgress), (i64, SyncProgress)) -> bool {
    |a: (i64, SyncProgress), b: (i64, SyncProgress)| a.0 < b.0
}

/// What the daemon is busy with: the registered jobs, then a line for each running
/// pass, by folder.
pub fn jobs_snapshot(
    jobs: Vec<JobItem>,
    passes: Vec<(i64, SyncProgress)>,
    names: &Vec<(i64, String)>,
) -> (r: Vec<JobItem>)
    ensures
        r@.len() == jobs@.len() + passes@.len(),
        r@.take(jobs@.len() as int) == jobs@,
        forall|i: int|
            0 <= i < passes@.len() ==> is_job(
                r@[#[trigger] (jobs@.len() + i)],
                names@,
                stable_sort(passes@, pass_before())[i],
            ),
{
    let ghost lt = pass_before();
    let less = |a: &(i64, SyncProgress), b: &(i64, SyncProgress)| -> (x: bool)
        ensures
            x == (a.0 < b.0),
        { a.0 < b.0 };
    let ghost registered = jobs@;
    let passes = sort_stable(passes, less, Ghost(lt));
    let mut out = jobs;
    let mut i: usize = 0;
    while i < passes.len()
        invariant
            i <= passes@.len(),
            out@.len() == registered.len() + i,
            out@.take(registered.len() as int) =~= registered,
            forall|k: int|
                0 <= k < i ==> is_job(
                    out@[#[trigger] (registered.len() + k)],
                    names@,
                    passes@[k],
                ),
        decreases passes@.len() - i,
    {
        let (id, p) = (passes[i].0, passes[i].1.clone());
        let most: u64 = if p.total < p.done {
            p.done
        } else {
            p.total
        };
        let title = title_of(names, id);
        let done: u64 = p.done;
        let job = match p.phase {
            SyncPhase::Scanning => JobItem {
                title: concat2("Checking ", title.as_str()),
                detail: "Looking for changes".to_owned(),
                done,
                total: if p.total == 0 {
                    0
                } else {
                    most
                },
            },
            SyncPhase::Applying => JobItem {
                title: concat2("Syncing ", title.as_str()),
                detail: p.current,
                done,
                total: most,
            },
        };
        assert(is_job(job, names@, passes@[i as int]));
        let ghost had = out@;
        out.push(job);
        assert(forall|k: int| 0 <= k < had.len() ==> out@[k] == had[k]);
        i = i + 1;
    }
    out
}

/// The words for a mount that was refused. `teardown` is what taking it down again
/// said, where that failed.
pub fn publish_rejection(closed: bool, teardown: Option<&str>) -> (r: String)
    ensures
        r@ == ({
            let reason = if closed {
                "daemon is shutting down"@
            } else {
                "folder already has a live mount"@
            };
            match teardown {
                None => reason,
                Some(error) => reason + "; rejected mount teardown failed: "@ + error@,
            }
        }),
{
    let reason = if closed {
        "daemon is shutting down"
    } else {
        "folder already has a live mount"
    };
    match teardown {
        None => reason.to_owned(),
        Some(error) => concat3(reason, "; rejected mount teardown failed: ", error),
    }
}

/// What a local location is for.
#[derive(Debug, Clone, Copy, PartialEq, Eq, Structural)]
pub enum MountKind {
    Primary,
    Device { sync_folder_id: i64 },
}

/// A local location as a front-end is told of it.
#[derive(Debug)]
pub struct MountSpec {
    pub local_path: String,
    pub kind: MountKind,
    pub mounted: bool,
    pub paused: bool,
    pub progress: Option<SyncProgress>,
}

/// Fill in what is live of a location. Only a synced folder has a pass, and can be
/// paused.
pub fn list_location(
    location: &mut MountSpec,
    mounted: bool,
    progress: Option<SyncProgress>,
    paused: bool,
)
    ensures
        *final(location) == (if old(location).kind is Device {
            MountSpec { mounted, progress, paused, ..*old(location) }
        } else {
            MountSpec { mounted, ..*old(location) }
        }),
{
    location.mounted = mounted;
    if let MountKind::Device { .. } = location.kind {
        location.progress = progress;
        location.paused = paused;
    }
}

/// A device is found by its uid just where the account has it.
pub proof fn law_devices_are_found_by_uid(devices: Seq<RemoteDevice>, uid: Seq<char>)
    ensures
        device_with(devices, uid) is Some <==> exists|i: int|
            0 <= i < devices.len() && (#[trigger] devices[i]).uid@ == uid,
        device_with(devices, uid) is Some ==> (device_with(devices, uid)->0).uid@ == uid
            && devices.contains(device_with(devices, uid)->0),
    decreases devices.len(),
{
    if devices.len() > 0 {
        let rest = devices.skip(1);
        law_devices_are_found_by_uid(rest, uid);
        assert(devices[0] == devices.first());
        assert(forall|i: int| 0 <= i < rest.len() ==> #[trigger] rest[i] == devices[i + 1]);
        if devices[0].uid@ == uid {
            assert(device_with(devices, uid) == Some(devices[0]));
        } else {
            assert(device_with(devices, uid) == device_with(rest, uid));
            if exists|i: int| 0 <= i < devices.len() && (#[trigger] devices[i]).uid@ == uid {
                let i = choose|i: int| 0 <= i < devices.len() && (#[trigger] devices[i]).uid@ == uid;
                assert(rest[i - 1].uid@ == uid);
            }
            if device_with(rest, uid) is Some {
                let k = choose|k: int|
                    0 <= k < rest.len() && rest[k] == device_with(rest, uid)->0;
                assert(devices[k + 1] == device_with(rest, uid)->0);
            }
        }
    }
}

/// This machine is only ever taken for a Linux device of its own name.
pub proof fn law_machines_are_matched_by_name(devices: Seq<RemoteDevice>, hostname: Seq<char>)
    ensures
        machine_among(devices, hostname) is Some ==> {
            let d = machine_among(devices, hostname)->0;
            d.device_type is Linux && d.name is Some && (d.name->0)@ == hostname
                && devices.contains(d)
        },
        machine_among(devices, hostname) is None ==> forall|i: int|
            0 <= i < devices.len() ==> !((#[trigger] devices[i]).device_type is Linux
                && devices[i].name is Some && (devices[i].name->0)@ == hostname),
{
    crate::lists::law_first_where(devices, |d: RemoteDevice| is_this_machine(d, hostname));
}

/// What is told and kept of a device is what the account says of it. It is this one, or the
/// adopted one, just where its uid is the one that is kept as such.
pub proof fn law_devices_are_told_as_they_are(
    info: DeviceInfo,
    s: StoredDevice,
    d: RemoteDevice,
    this_uid: Option<Seq<char>>,
    pinned: Option<Seq<char>>,
    name: Seq<char>,
)
    requires
        tells_of(info, d, this_uid, pinned),
        remembers(s, d, name),
    ensures
        info.uid@ == d.uid@ && s.uid@ == d.uid@,
        s.root_uid@ == d.root_uid@ && s.share_id@ == d.share_id@ && s.created == d.created,
        s.name@ == name,
        info.this_device <==> this_uid == Some(d.uid@),
        info.adopted <==> pinned == Some(d.uid@),
        d.name is Some ==> info.name@ == (d.name->0)@,
        d.name is None ==> info.name@ == "(unnamed device)"@,
        info.last_sync == d.last_sync,
{
}

/// A text of a device type tells that type.
pub proof fn law_device_types_differ(a: DeviceType, b: DeviceType)
    ensures
        device_type_text(a) == device_type_text(b) ==> a == b,
{
    reveal_strlit("Windows");
    reveal_strlit("MacOs");
    reveal_strlit("Linux");
    assert("Windows"@[0] == 'W');
    assert("MacOs"@[0] == 'M');
    assert("Linux"@[0] == 'L');
}

/// A kept text counts just where it is more than white space.
pub proof fn law_blank_texts_pin_nothing(raw: Option<Seq<char>>)
    ensures
        pinned_uid(raw) is Some <==> raw is Some && trim(raw->0).len() > 0,
        pinned_uid(raw) is Some ==> pinned_uid(raw)->0 == trim(raw->0),
{
}

/// A folder of a device is found just where a folder of that name is there and not in the
/// trash.
pub proof fn law_child_folders_are_live(nodes: Seq<Node>, name: Seq<char>)
    ensures
        child_folder(nodes, name) is Some ==> {
            let n = child_folder(nodes, name)->0;
            n.kind is Folder && !n.trashed && n.name@ == name && nodes.contains(n)
        },
        child_folder(nodes, name) is None ==> forall|i: int|
            0 <= i < nodes.len() ==> !((#[trigger] nodes[i]).kind is Folder && !nodes[i].trashed
                && nodes[i].name@ == name),
    decreases nodes.len(),
{
    if nodes.len() > 0 {
        let rest = nodes.skip(1);
        law_child_folders_are_live(rest, name);
        if nodes[0].kind is Folder && !nodes[0].trashed && nodes[0].name@ == name {
            assert(child_folder(nodes, name) == Some(nodes[0]));
        } else {
            assert(child_folder(nodes, name) == child_folder(rest, name));
            if child_folder(rest, name) is Some {
                let k = choose|k: int|
                    0 <= k < rest.len() && rest[k] == child_folder(rest, name)->0;
                assert(nodes[k + 1] == child_folder(rest, name)->0);
            } else {
                assert forall|i: int| 0 <= i < nodes.len() implies !((#[trigger] nodes[i]).kind
                    is Folder && !nodes[i].trashed && nodes[i].name@ == name) by {
                    if i > 0 {
                        assert(rest[i - 1] == nodes[i]);
                    }
                }
            }
        }
    }
}

/// Passes are told of by folder, each once.
pub proof fn law_passes_are_told_in_order(passes: Seq<(i64, SyncProgress)>)
    ensures
        stable_sort(passes, pass_before()).len() == passes.len(),
        stable_sort(passes, pass_before()).to_multiset() == passes.to_multiset(),
        forall|i: int, j: int|
            0 <= i < j < passes.len() ==> (#[trigger] stable_sort(passes, pass_before())[i]).0 <= (
            #[trigger] stable_sort(passes, pass_before())[j]).0,
{
    let lt = pass_before();
    assert(strict_weak(lt)) by {
        assert(forall|a: (i64, SyncProgress), b: (i64, SyncProgress)| #[trigger]
            lt(a, b) <==> a.0 < b.0);
    }
    law_stable_sort_sorts(passes, lt);
    let s = stable_sort(passes, lt);
    assert forall|i: int, j: int| 0 <= i < j < passes.len() implies (#[trigger] s[i]).0 <= (
    #[trigger] s[j]).0 by {
        assert(!lt(s[j], s[i]));
    }
}

/// A job never tells of more done than there is, and never of less than was done; one that
/// looks for changes and does not know how many there are tells of no total.
pub proof fn law_jobs_tell_their_progress(
    job: JobItem,
    names: Seq<(i64, String)>,
    pass: (i64, SyncProgress),
)
    requires
        is_job(job, names, pass),
    ensures
        job.done == pass.1.done,
        job.total >= job.done || (job.total == 0 && pass.1.total == 0 && pass.1.phase is Scanning),
        pass.1.total >= pass.1.done ==> job.total == pass.1.total,
        pass.1.phase is Applying ==> job.detail == pass.1.current && "Syncing "@.is_prefix_of(
            job.title@,
        ),
        pass.1.phase is Scanning ==> "Checking "@.is_prefix_of(job.title@),
        folder_title(names, pass.0).is_suffix_of(job.title@),
{
}

/// A pass is named after the folder that was last said to have its id, and after no other.
pub proof fn law_passes_are_named_by_their_folder(names: Seq<(i64, String)>, id: i64)
    ensures
        folder_title(names, id) == "folder"@ || exists|i: int|
            0 <= i < names.len() && (#[trigger] names[i]).0 == id && path_file_name(names[i].1@)
                == Some(folder_title(names, id)),
{
    crate::lists::law_last_where(names, named(id));
    match last_where(names, named(id)) {
        Some(p) => {
            let i = choose|i: int|
                0 <= i < names.len() && #[trigger] names[i] == p && (named(id))(p);
            assert(names[i].0 == id);
        },
        None => {},
    }
}

/// A device is called by its own name, and by the one that stands in for it only where it
/// has none.
pub proof fn law_devices_are_called_by_their_name(d: RemoteDevice, fallback: Seq<char>)
    ensures
        d.name is Some ==> device_name(d, fallback) == (d.name->0)@,
        d.name is None ==> device_name(d, fallback) == fallback,
{
}

/// A folder is synced just where a row has its very path.
pub proof fn law_synced_folders_have_a_row(folders: Seq<StoredSyncFolder>, i: int)
    requires
        0 <= i < folders.len(),
    ensures
        synced(folders, folders[i].local_path@),
        !synced(Seq::<StoredSyncFolder>::empty(), folders[i].local_path@),
{
}

} // verus!

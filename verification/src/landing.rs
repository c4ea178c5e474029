//! How queued rows land on the remote.
//!
//! Each row is performed in steps that wait for the remote, so each is a machine
//! that is told how a call went and says what to do next. A name that is taken is
//! never overwritten: the node lands under a conflict name. A folder that is gone
//! never costs the file: it stays, or it lands in the root.

use crate::adoption::{node_name, recovered_name};
use crate::names::{conflict_copy, conflict_name};
use crate::node::Node;
use crate::ops::{opt_view, OpKind, PendingOp};
use crate::staging::StagedWrite;
use crate::text::{concat2, concat3, same_text};
use crate::uid::{
    is_local_uid_str, parse_node_uid, same_uid, text_is_local, uid_written, NodeUid, Uid,
};
use vstd::prelude::*;

verus! {

/// How a call to the remote went.
#[derive(Debug, Clone, Copy, PartialEq, Eq, Structural)]
pub enum Call {
    Done,
    /// Something has the name already.
    Taken,
    /// What it was about is gone.
    Gone,
    Failed,
}

/// A name that a node may land under.
#[derive(Debug, Clone, Copy, PartialEq, Eq, Structural)]
pub enum LandName {
    /// What the user asked for.
    Wanted,
    /// The conflict variant of what the user asked for.
    Conflict,
    /// What the remote has.
    Current,
}

/// Which handler performs a row.
#[derive(Debug, Clone, Copy, PartialEq, Eq, Structural)]
pub enum DrainHandler {
    Revision,
    LocalNode,
    Rename,
    Trash,
    Unknown,
}

/// Which handler performs a row.
pub fn drain_op(kind: OpKind) -> (r: DrainHandler)
    ensures
        r == (match kind {
            OpKind::Revision => DrainHandler::Revision,
            OpKind::Create => DrainHandler::LocalNode,
            OpKind::Mkdir => DrainHandler::LocalNode,
            OpKind::Rename => DrainHandler::Rename,
            OpKind::Trash => DrainHandler::Trash,
            OpKind::Unknown => DrainHandler::Unknown,
        }),
{
    match kind {
        OpKind::Revision => DrainHandler::Revision,
        OpKind::Create => DrainHandler::LocalNode,
        OpKind::Mkdir => DrainHandler::LocalNode,
        OpKind::Rename => DrainHandler::Rename,
        OpKind::Trash => DrainHandler::Trash,
        OpKind::Unknown => DrainHandler::Unknown,
    }
}

/// What a rename or a creation is to do.
#[derive(Debug)]
pub struct LandTarget {
    pub uid: NodeUid,
    pub parent: NodeUid,
    pub name: String,
}

/// What is wrong with a rename or a creation, in words.
pub open spec fn land_fault(op: PendingOp, rename: bool) -> Option<Seq<char>> {
    let parent = op.parent_uid;
    if uid_written(op.uid@) is None {
        Some(
            if rename {
                "rename op has an unparseable uid"@
            } else {
                "pending op has an unparseable uid"@
            },
        )
    } else if parent is None {
        Some(
            if rename {
                "rename op has no parent"@
            } else {
                "create op has no parent"@
            },
        )
    } else if text_is_local((parent->0)@) {
        Some(
            (if rename {
                "destination "@
            } else {
                "parent "@
            }) + (parent->0)@ + " has not been created yet"@,
        )
    } else if uid_written((parent->0)@) is None {
        Some(
            if rename {
                "rename op has an unparseable parent"@
            } else {
                "create op has an unparseable parent"@
            },
        )
    } else if op.name is None {
        Some(
            if rename {
                "rename op has no name"@
            } else {
                "create op has no name"@
            },
        )
    } else {
        None
    }
}

/// Read what a rename or a creation is to do. A folder that does not exist yet is
/// no place to go: the row waits for it.
pub fn land_target(op: &PendingOp, rename: bool) -> (r: Result<LandTarget, String>)
    ensures
        match r {
            Err(e) => land_fault(*op, rename) == Some(e@),
            Ok(t) => {
                &&& land_fault(*op, rename) is None
                &&& uid_written(op.uid@) == Some(t.uid@)
                &&& uid_written((op.parent_uid->0)@) == Some(t.parent@)
                &&& opt_view(op.name) == Some(t.name@)
            },
        },
{
    let uid = match parse_node_uid(op.uid.as_str()) {
        Some(u) => u,
        None => {
            return Err(
                if rename {
                    "rename op has an unparseable uid".to_owned()
                } else {
                    "pending op has an unparseable uid".to_owned()
                },
            );
        },
    };
    let text = match &op.parent_uid {
        Some(p) => p,
        None => {
            return Err(
                if rename {
                    "rename op has no parent".to_owned()
                } else {
                    "create op has no parent".to_owned()
                },
            );
        },
    };
    if is_local_uid_str(text.as_str()) {
        let head = if rename {
            "destination "
        } else {
            "parent "
        };
        return Err(concat3(head, text.as_str(), " has not been created yet"));
    }
    let parent = match parse_node_uid(text.as_str()) {
        Some(u) => u,
        None => {
            return Err(
                if rename {
                    "rename op has an unparseable parent".to_owned()
                } else {
                    "create op has an unparseable parent".to_owned()
                },
            );
        },
    };
    match &op.name {
        Some(name) => Ok(LandTarget { uid, parent, name: name.clone() }),
        None => Err(
            if rename {
                "rename op has no name".to_owned()
            } else {
                "create op has no name".to_owned()
            },
        ),
    }
}

/// Where the remote has a node that is to be renamed.
#[derive(Debug, Clone, Copy, PartialEq, Eq, Structural)]
pub enum Placement {
    /// It is gone or in the trash.
    Missing,
    /// It is in the wanted folder.
    Here { same_name: bool },
    Elsewhere { same_name: bool },
}

/// What the machine of a rename is told.
#[derive(Debug, Clone, Copy, PartialEq, Eq, Structural)]
pub enum RenameEvent {
    Fetched(Placement),
    Called(Call),
}

/// What is to be done for a rename.
#[derive(Debug, Clone, Copy, PartialEq, Eq, Structural)]
pub enum RenameAction {
    /// There is nothing to rename: the row goes.
    Drop,
    /// Move the node to the wanted folder, under a new name if `to` says so.
    Move { to: LandName },
    Rename { to: LandName },
    /// The row goes: the node is at its end under `name`. The tree takes that
    /// name where it is not the wanted one; `moved` and `renamed` tell the user
    /// that the name was taken, and `stranded` that the folder is gone.
    Land { name: LandName, moved: bool, renamed: bool, stranded: bool },
    Fail,
}

/// Where the machine of a rename is.
#[derive(Debug, Clone, Copy, PartialEq, Eq, Structural)]
pub enum RenameStage {
    AwaitFetch,
    AwaitMove { same_name: bool },
    AwaitMoveConflict,
    AwaitRename { stranded: bool },
    AwaitRenameConflict { stranded: bool },
    Over,
}

/// Whether `event` is what the machine waits for.
pub open spec fn rename_expects(stage: RenameStage, event: RenameEvent) -> bool {
    match event {
        RenameEvent::Fetched(_) => stage is AwaitFetch,
        RenameEvent::Called(_) => !(stage is AwaitFetch) && !(stage is Over),
    }
}

/// What follows on renaming a node where it is.
pub open spec fn rename_in_place(same_name: bool, stranded: bool) -> (RenameStage, RenameAction) {
    if same_name {
        (
            RenameStage::Over,
            RenameAction::Land {
                name: LandName::Current,
                moved: false,
                renamed: false,
                stranded,
            },
        )
    } else {
        (RenameStage::AwaitRename { stranded }, RenameAction::Rename { to: LandName::Wanted })
    }
}

/// What follows on a failed rename of a node where it is. A stranded node that
/// went with its folder is at its end.
pub open spec fn rename_refused(call: Call, stranded: bool) -> RenameAction {
    if stranded && call is Gone {
        RenameAction::Land {
            name: LandName::Current,
            moved: false,
            renamed: false,
            stranded: true,
        }
    } else {
        RenameAction::Fail
    }
}

/// What follows on `event`.
pub open spec fn rename_after(stage: RenameStage, event: RenameEvent) -> (
    RenameStage,
    RenameAction,
) {
    match event {
        RenameEvent::Fetched(Placement::Missing) => (RenameStage::Over, RenameAction::Drop),
        RenameEvent::Fetched(Placement::Here { same_name }) => rename_in_place(same_name, false),
        RenameEvent::Fetched(Placement::Elsewhere { same_name }) => (
            RenameStage::AwaitMove { same_name },
            RenameAction::Move {
                to: if same_name {
                    LandName::Current
                } else {
                    LandName::Wanted
                },
            },
        ),
        RenameEvent::Called(call) => match stage {
            RenameStage::AwaitMove { same_name } => match call {
                Call::Done => (
                    RenameStage::Over,
                    RenameAction::Land {
                        name: LandName::Wanted,
                        moved: false,
                        renamed: false,
                        stranded: false,
                    },
                ),
                Call::Taken => (
                    RenameStage::AwaitMoveConflict,
                    RenameAction::Move { to: LandName::Conflict },
                ),
                Call::Gone => rename_in_place(same_name, true),
                Call::Failed => (RenameStage::Over, RenameAction::Fail),
            },
            RenameStage::AwaitMoveConflict => (
                RenameStage::Over,
                if call is Done {
                    RenameAction::Land {
                        name: LandName::Conflict,
                        moved: true,
                        renamed: false,
                        stranded: false,
                    }
                } else {
                    RenameAction::Fail
                },
            ),
            RenameStage::AwaitRename { stranded } => match call {
                Call::Done => (
                    RenameStage::Over,
                    RenameAction::Land {
                        name: LandName::Wanted,
                        moved: false,
                        renamed: false,
                        stranded,
                    },
                ),
                Call::Taken => (
                    RenameStage::AwaitRenameConflict { stranded },
                    RenameAction::Rename { to: LandName::Conflict },
                ),
                _ => (RenameStage::Over, rename_refused(call, stranded)),
            },
            RenameStage::AwaitRenameConflict { stranded } => (
                RenameStage::Over,
                if call is Done {
                    RenameAction::Land {
                        name: LandName::Conflict,
                        moved: false,
                        renamed: true,
                        stranded,
                    }
                } else {
                    rename_refused(call, stranded)
                },
            ),
            _ => (RenameStage::Over, RenameAction::Fail),
        },
    }
}

/// Rename a node where it is: a name that it has already needs no call.
pub fn drain_rename_in_place(same_name: bool, stranded: bool) -> (r: (RenameStage, RenameAction))
    ensures
        r == rename_in_place(same_name, stranded),
{
    if same_name {
        (
            RenameStage::Over,
            RenameAction::Land {
                name: LandName::Current,
                moved: false,
                renamed: false,
                stranded,
            },
        )
    } else {
        (RenameStage::AwaitRename { stranded }, RenameAction::Rename { to: LandName::Wanted })
    }
}

fn refused(call: Call, stranded: bool) -> (r: RenameAction)
    ensures
        r == rename_refused(call, stranded),
{
    match call {
        Call::Gone => if stranded {
            RenameAction::Land {
                name: LandName::Current,
                moved: false,
                renamed: false,
                stranded: true,
            }
        } else {
            RenameAction::Fail
        },
        _ => RenameAction::Fail,
    }
}

/// Take the answer to the last call of a rename, and say what to do next.
pub fn drain_rename(stage: RenameStage, event: RenameEvent) -> (r: (RenameStage, RenameAction))
    requires
        rename_expects(stage, event),
    ensures
        r == rename_after(stage, event),
{
    match event {
        RenameEvent::Fetched(placement) => match placement {
            Placement::Missing => (RenameStage::Over, RenameAction::Drop),
            Placement::Here { same_name } => drain_rename_in_place(same_name, false),
            Placement::Elsewhere { same_name } => (
                RenameStage::AwaitMove { same_name },
                RenameAction::Move {
                    to: if same_name {
                        LandName::Current
                    } else {
                        LandName::Wanted
                    },
                },
            ),
        },
        RenameEvent::Called(call) => match stage {
            RenameStage::AwaitMove { same_name } => match call {
                Call::Done => (
                    RenameStage::Over,
                    RenameAction::Land {
                        name: LandName::Wanted,
                        moved: false,
                        renamed: false,
                        stranded: false,
                    },
                ),
                Call::Taken => (
                    RenameStage::AwaitMoveConflict,
                    RenameAction::Move { to: LandName::Conflict },
                ),
                Call::Gone => drain_rename_in_place(same_name, true),
                Call::Failed => (RenameStage::Over, RenameAction::Fail),
            },
            RenameStage::AwaitMoveConflict => match call {
                Call::Done => (
                    RenameStage::Over,
                    RenameAction::Land {
                        name: LandName::Conflict,
                        moved: true,
                        renamed: false,
                        stranded: false,
                    },
                ),
                _ => (RenameStage::Over, RenameAction::Fail),
            },
            RenameStage::AwaitRename { stranded } => match call {
                Call::Done => (
                    RenameStage::Over,
                    RenameAction::Land {
                        name: LandName::Wanted,
                        moved: false,
                        renamed: false,
                        stranded,
                    },
                ),
                Call::Taken => (
                    RenameStage::AwaitRenameConflict { stranded },
                    RenameAction::Rename { to: LandName::Conflict },
                ),
                _ => (RenameStage::Over, refused(call, stranded)),
            },
            RenameStage::AwaitRenameConflict { stranded } => match call {
                Call::Done => (
                    RenameStage::Over,
                    RenameAction::Land {
                        name: LandName::Conflict,
                        moved: false,
                        renamed: true,
                        stranded,
                    },
                ),
                _ => (RenameStage::Over, refused(call, stranded)),
            },
            _ => (RenameStage::Over, RenameAction::Fail),
        },
    }
}

/// A rename is retired only at its end: a taken name is answered with a conflict
/// name, a node that is gone with nothing at all, and any other failure leaves the
/// row. A landed name is the wanted one, the one it has, or its conflict variant
/// after the wanted one was found taken.
pub proof fn law_rename_never_overwrites(stage: RenameStage, call: Call)
    requires
        rename_expects(stage, RenameEvent::Called(call)),
    ensures
        ({
            let (next, action) = rename_after(stage, RenameEvent::Called(call));
            &&& call is Failed ==> action is Fail
            &&& (action matches RenameAction::Land { name, moved, renamed, .. } ==> (name
                is Conflict <==> (moved || renamed)) && (name is Conflict ==> (stage
                is AwaitMoveConflict || stage is AwaitRenameConflict) && call is Done))
            &&& (call is Taken && (stage is AwaitMove || stage is AwaitRename) ==> action
                == (RenameAction::Move { to: LandName::Conflict }) || action == (
            RenameAction::Rename { to: LandName::Conflict }))
        }),
{
}

/// The line for a rename that landed under another name or place.
#[derive(Debug, Clone, Copy, PartialEq, Eq, Structural)]
pub enum RenameLine {
    Moved,
    Renamed,
    Stranded,
}

/// The words of such a line; `alt` is the conflict name.
pub fn rename_line(line: RenameLine, alt: &str) -> (r: String)
    ensures
        r@ == (match line {
            RenameLine::Moved => "destination already had that name; moved as "@ + alt@,
            RenameLine::Renamed => "name was taken remotely; renamed to "@ + alt@,
            RenameLine::Stranded =>
                "destination folder no longer exists; the file was left in place"@,
        }),
{
    match line {
        RenameLine::Moved => concat2("destination already had that name; moved as ", alt),
        RenameLine::Renamed => concat2("name was taken remotely; renamed to ", alt),
        RenameLine::Stranded =>
            "destination folder no longer exists; the file was left in place".to_owned(),
    }
}

/// Whether a queued trash is done: a node that is gone already is as good.
pub fn drain_trash(call: Call) -> (r: bool)
    ensures
        r == (call is Done || call is Gone),
{
    match call {
        Call::Done | Call::Gone => true,
        _ => false,
    }
}

/// The name that a trash is reported under.
pub fn trash_name(op: &PendingOp) -> (r: String)
    ensures
        r@ == (match op.name {
            Some(n) => n@,
            None => op.uid@,
        }),
{
    match &op.name {
        Some(n) => n.clone(),
        None => op.uid.clone(),
    }
}

/// Which node a trash is about.
pub fn trash_target(op: &PendingOp) -> (r: Result<NodeUid, String>)
    ensures
        match uid_written(op.uid@) {
            Some(u) => r matches Ok(uid) && uid@ == u,
            None => r matches Err(e) && e@ == "trash op has an unparseable uid"@,
        },
{
    match parse_node_uid(op.uid.as_str()) {
        Some(uid) => Ok(uid),
        None => Err("trash op has an unparseable uid".to_owned()),
    }
}

/// What an upload sends, and which node it is a revision of. `meta` is what the row
/// says of the write, or why that cannot be read.
pub fn revision_target(op: &PendingOp, meta: &Result<StagedWrite, String>) -> (r: Result<
    (String, NodeUid),
    String,
>)
    ensures
        match (op.blob_path, *meta) {
            (None, _) => r matches Err(e) && e@ == "pending op has no staged blob"@,
            (Some(_), Err(why)) => r matches Err(e) && e@ == why@,
            (Some(blob), Ok(write)) => match uid_written(write.uid@) {
                Some(u) => r matches Ok((path, uid)) && path@ == blob@ && uid@ == u,
                None => r matches Err(e) && e@ == "staged write has an unparseable uid"@,
            },
        },
{
    match &op.blob_path {
        None => Err("pending op has no staged blob".to_owned()),
        Some(blob) => match meta {
            Err(why) => Err(why.clone()),
            Ok(write) => match parse_node_uid(write.uid.as_str()) {
                Some(uid) => Ok((blob.clone(), uid)),
                None => Err("staged write has an unparseable uid".to_owned()),
            },
        },
    }
}

/// Where the machine of a creation is.
#[derive(Debug, Clone, Copy, PartialEq, Eq, Structural)]
pub enum CreateStage {
    AwaitCreate,
    AwaitCreateConflict,
    /// Waiting to hear whether the folder is gone; `name` was tried last.
    AwaitParent { name: LandName },
    AwaitRoot { name: LandName },
    AwaitRootConflict,
    Over,
}

/// What the machine of a creation is told.
#[derive(Debug, Clone, Copy, PartialEq, Eq, Structural)]
pub enum CreateEvent {
    Called(Call),
    /// Whether the folder is known to be gone. `root` is whether the root is known.
    Parent { gone: bool, root: bool },
}

/// What is to be done for a creation.
#[derive(Debug, Clone, Copy, PartialEq, Eq, Structural)]
pub enum CreateAction {
    Create { name: LandName, in_root: bool },
    /// Ask whether the folder is gone.
    AskParent,
    /// The row goes, and the node takes its real identity. `taken` and `rehomed`
    /// tell the user why it is not where it was put.
    Land { name: LandName, taken: bool, rehomed: bool },
    Fail,
}

/// Whether `event` is what the machine waits for.
pub open spec fn create_expects(stage: CreateStage, event: CreateEvent) -> bool {
    match event {
        CreateEvent::Called(_) => stage is AwaitCreate || stage is AwaitCreateConflict || stage
            is AwaitRoot || stage is AwaitRootConflict,
        CreateEvent::Parent { .. } => stage is AwaitParent,
    }
}

/// What follows on `event`.
pub open spec fn create_after(stage: CreateStage, event: CreateEvent) -> (
    CreateStage,
    CreateAction,
) {
    match stage {
        CreateStage::AwaitCreate => match event->Called_0 {
            Call::Done => (
                CreateStage::Over,
                CreateAction::Land { name: LandName::Wanted, taken: false, rehomed: false },
            ),
            Call::Taken => (
                CreateStage::AwaitCreateConflict,
                CreateAction::Create { name: LandName::Conflict, in_root: false },
            ),
            _ => (CreateStage::AwaitParent { name: LandName::Wanted }, CreateAction::AskParent),
        },
        CreateStage::AwaitCreateConflict => match event->Called_0 {
            Call::Done => (
                CreateStage::Over,
                CreateAction::Land { name: LandName::Conflict, taken: true, rehomed: false },
            ),
            _ => (CreateStage::AwaitParent { name: LandName::Conflict }, CreateAction::AskParent),
        },
        CreateStage::AwaitParent { name } => if event->gone && event->root {
            (CreateStage::AwaitRoot { name }, CreateAction::Create { name, in_root: true })
        } else {
            (CreateStage::Over, CreateAction::Fail)
        },
        CreateStage::AwaitRoot { name } => match event->Called_0 {
            Call::Done => (
                CreateStage::Over,
                CreateAction::Land { name, taken: false, rehomed: true },
            ),
            Call::Taken => (
                CreateStage::AwaitRootConflict,
                CreateAction::Create { name: LandName::Conflict, in_root: true },
            ),
            _ => (CreateStage::Over, CreateAction::Fail),
        },
        CreateStage::AwaitRootConflict => match event->Called_0 {
            Call::Done => (
                CreateStage::Over,
                CreateAction::Land { name: LandName::Conflict, taken: false, rehomed: true },
            ),
            _ => (CreateStage::Over, CreateAction::Fail),
        },
        CreateStage::Over => (CreateStage::Over, CreateAction::Fail),
    }
}

/// Take the answer to the last call of a creation, and say what to do next.
pub fn drain_local_node(stage: CreateStage, event: CreateEvent) -> (r: (
    CreateStage,
    CreateAction,
))
    requires
        create_expects(stage, event),
    ensures
        r == create_after(stage, event),
{
    match event {
        CreateEvent::Called(call) => match stage {
            CreateStage::AwaitCreate => match call {
                Call::Done => (
                    CreateStage::Over,
                    CreateAction::Land { name: LandName::Wanted, taken: false, rehomed: false },
                ),
                Call::Taken => (
                    CreateStage::AwaitCreateConflict,
                    CreateAction::Create { name: LandName::Conflict, in_root: false },
                ),
                _ => (
                    CreateStage::AwaitParent { name: LandName::Wanted },
                    CreateAction::AskParent,
                ),
            },
            CreateStage::AwaitCreateConflict => match call {
                Call::Done => (
                    CreateStage::Over,
                    CreateAction::Land { name: LandName::Conflict, taken: true, rehomed: false },
                ),
                _ => (
                    CreateStage::AwaitParent { name: LandName::Conflict },
                    CreateAction::AskParent,
                ),
            },
            CreateStage::AwaitRoot { name } => match call {
                Call::Done => (
                    CreateStage::Over,
                    CreateAction::Land { name, taken: false, rehomed: true },
                ),
                Call::Taken => (
                    CreateStage::AwaitRootConflict,
                    CreateAction::Create { name: LandName::Conflict, in_root: true },
                ),
                _ => (CreateStage::Over, CreateAction::Fail),
            },
            CreateStage::AwaitRootConflict => match call {
                Call::Done => (
                    CreateStage::Over,
                    CreateAction::Land { name: LandName::Conflict, taken: false, rehomed: true },
                ),
                _ => (CreateStage::Over, CreateAction::Fail),
            },
            _ => (CreateStage::Over, CreateAction::Fail),
        },
        CreateEvent::Parent { gone, root } => match stage {
            CreateStage::AwaitParent { name } => if gone && root {
                (CreateStage::AwaitRoot { name }, CreateAction::Create { name, in_root: true })
            } else {
                (CreateStage::Over, CreateAction::Fail)
            },
            _ => (CreateStage::Over, CreateAction::Fail),
        },
    }
}

/// A creation leaves its folder only when the folder is known to be gone.
pub proof fn law_creation_stays_in_its_folder(stage: CreateStage, event: CreateEvent)
    requires
        create_expects(stage, event),
    ensures
        ({
            let (next, action) = create_after(stage, event);
            (action matches CreateAction::Create { in_root, .. } && in_root) ==> stage is AwaitRoot
                || (event matches CreateEvent::Parent { gone, root } && gone && root)
        }),
        ({
            let (next, action) = create_after(stage, event);
            (action matches CreateAction::Land { rehomed, .. } && rehomed) <==> (stage is AwaitRoot
                || stage is AwaitRootConflict) && event == CreateEvent::Called(Call::Done)
        }),
{
}

/// The words for a node that was created under another name or in the root.
pub fn create_line(rehomed: bool, name: &str) -> (r: String)
    ensures
        r@ == (if rehomed {
            "its folder was trashed remotely; created in the root as "@
        } else {
            "name was taken remotely; created as "@
        }) + name@,
{
    if rehomed {
        concat2("its folder was trashed remotely; created in the root as ", name)
    } else {
        concat2("name was taken remotely; created as ", name)
    }
}

/// Whether a folder has stopped being a place that a node can go to: `trashed` is
/// what the remote says of it, if it knows it. A failure to ask is no answer.
pub fn parent_is_gone(answer: Result<Option<bool>, ()>) -> (r: bool)
    ensures
        r == (match answer {
            Ok(Some(trashed)) => trashed,
            Ok(None) => true,
            Err(_) => false,
        }),
{
    match answer {
        Ok(Some(trashed)) => trashed,
        Ok(None) => true,
        Err(_) => false,
    }
}

/// What is made of a queued creation.
#[derive(Debug, Clone, Copy, PartialEq, Eq, Structural)]
pub enum CreateBody {
    Folder,
    /// A file that was never written.
    Empty,
    /// A file with the bytes of its blob.
    Blob { len: u64 },
    /// The blob has gaps, and there is nothing to fill them from.
    Incomplete,
}

/// What is made of a queued creation. `meta` is the length of the blob, and
/// whether it is the whole file.
pub fn upload_created_file(kind: OpKind, blob: bool, len: u64, complete: bool) -> (r: CreateBody)
    ensures
        r == (if kind == OpKind::Mkdir {
            CreateBody::Folder
        } else if !blob {
            CreateBody::Empty
        } else if !complete {
            CreateBody::Incomplete
        } else {
            CreateBody::Blob { len }
        }),
{
    if kind == OpKind::Mkdir {
        CreateBody::Folder
    } else if !blob {
        CreateBody::Empty
    } else if !complete {
        CreateBody::Incomplete
    } else {
        CreateBody::Blob { len }
    }
}

/// What the machine of an upload is told.
#[derive(Debug, Clone, Copy, PartialEq, Eq, Structural)]
pub enum RevisionEvent {
    /// Whether the remote moved on. A failure to ask fails the row.
    Checked { conflict: bool },
    CheckFailed,
    /// Whether there is a folder for a copy.
    Placed { found: bool },
    Filled { ok: bool },
    /// The blob cannot be opened, to be filled or to be sent.
    Unopened,
    /// How the upload went, and whether it was told to stop.
    Sent { ok: bool, stopped: bool },
}

/// What is to be done for an upload.
#[derive(Debug, Clone, Copy, PartialEq, Eq, Structural)]
pub enum RevisionAction {
    /// Find a folder for a copy.
    Place,
    /// Fill the gaps of the blob from the base.
    Fill,
    /// Send the blob as a new revision.
    Send,
    /// Send the blob as a new file beside the node.
    SendCopy,
    /// The upload landed: the row goes, then the blob.
    Land,
    /// The copy landed: the row goes, then the blob.
    LandCopy,
    /// A newer write took over: leave the row and the blob alone.
    Superseded,
    /// The row goes, and the blob stays in staging.
    Abandon,
    Fail,
}

/// Where the machine of an upload is. `complete` is whether the blob is the whole
/// file.
#[derive(Debug, Clone, Copy, PartialEq, Eq, Structural)]
pub enum RevisionStage {
    AwaitCheck { complete: bool },
    AwaitPlace { complete: bool },
    AwaitFill { copy: bool },
    AwaitSend,
    AwaitSendCopy,
    Over,
}

/// Whether `event` is what the machine waits for.
pub open spec fn revision_expects(stage: RevisionStage, event: RevisionEvent) -> bool {
    match event {
        RevisionEvent::Checked { .. } => stage is AwaitCheck,
        RevisionEvent::CheckFailed => stage is AwaitCheck,
        RevisionEvent::Placed { .. } => stage is AwaitPlace,
        RevisionEvent::Filled { .. } => stage is AwaitFill,
        RevisionEvent::Unopened => stage is AwaitFill || stage is AwaitSend || stage
            is AwaitSendCopy,
        RevisionEvent::Sent { .. } => stage is AwaitSend || stage is AwaitSendCopy,
    }
}

/// What follows on `event`.
pub open spec fn revision_after(stage: RevisionStage, event: RevisionEvent) -> (
    RevisionStage,
    RevisionAction,
) {
    match stage {
        RevisionStage::AwaitCheck { complete } => if event is CheckFailed {
            (RevisionStage::Over, RevisionAction::Fail)
        } else if event->conflict {
            (RevisionStage::AwaitPlace { complete }, RevisionAction::Place)
        } else if complete {
            (RevisionStage::AwaitSend, RevisionAction::Send)
        } else {
            (RevisionStage::AwaitFill { copy: false }, RevisionAction::Fill)
        },
        RevisionStage::AwaitPlace { complete } => if !event->found {
            (RevisionStage::Over, RevisionAction::Abandon)
        } else if complete {
            (RevisionStage::AwaitSendCopy, RevisionAction::SendCopy)
        } else {
            (RevisionStage::AwaitFill { copy: true }, RevisionAction::Fill)
        },
        RevisionStage::AwaitFill { copy } => if event is Unopened {
            (RevisionStage::Over, RevisionAction::Fail)
        } else if event->Filled_ok {
            if copy {
                (RevisionStage::AwaitSendCopy, RevisionAction::SendCopy)
            } else {
                (RevisionStage::AwaitSend, RevisionAction::Send)
            }
        } else if copy {
            (RevisionStage::Over, RevisionAction::Abandon)
        } else {
            (RevisionStage::Over, RevisionAction::Fail)
        },
        RevisionStage::AwaitSend => if event is Unopened {
            (RevisionStage::Over, RevisionAction::Fail)
        } else if event->Sent_ok {
            (RevisionStage::Over, RevisionAction::Land)
        } else if event->stopped {
            (RevisionStage::Over, RevisionAction::Superseded)
        } else {
            (RevisionStage::Over, RevisionAction::Fail)
        },
        RevisionStage::AwaitSendCopy => if event is Unopened {
            (RevisionStage::Over, RevisionAction::Fail)
        } else if event->Sent_ok {
            (RevisionStage::Over, RevisionAction::LandCopy)
        } else {
            (RevisionStage::Over, RevisionAction::Fail)
        },
        RevisionStage::Over => (RevisionStage::Over, RevisionAction::Fail),
    }
}

/// Take the answer to the last step of an upload, and say what to do next.
pub fn drain_revision(stage: RevisionStage, event: RevisionEvent) -> (r: (
    RevisionStage,
    RevisionAction,
))
    requires
        revision_expects(stage, event),
    ensures
        r == revision_after(stage, event),
{
    match event {
        RevisionEvent::CheckFailed => (RevisionStage::Over, RevisionAction::Fail),
        RevisionEvent::Unopened => (RevisionStage::Over, RevisionAction::Fail),
        RevisionEvent::Checked { conflict } => match stage {
            RevisionStage::AwaitCheck { complete } => if conflict {
                (RevisionStage::AwaitPlace { complete }, RevisionAction::Place)
            } else if complete {
                (RevisionStage::AwaitSend, RevisionAction::Send)
            } else {
                (RevisionStage::AwaitFill { copy: false }, RevisionAction::Fill)
            },
            _ => (RevisionStage::Over, RevisionAction::Fail),
        },
        RevisionEvent::Placed { found } => match stage {
            RevisionStage::AwaitPlace { complete } => if !found {
                (RevisionStage::Over, RevisionAction::Abandon)
            } else if complete {
                (RevisionStage::AwaitSendCopy, RevisionAction::SendCopy)
            } else {
                (RevisionStage::AwaitFill { copy: true }, RevisionAction::Fill)
            },
            _ => (RevisionStage::Over, RevisionAction::Fail),
        },
        RevisionEvent::Filled { ok } => match stage {
            RevisionStage::AwaitFill { copy } => if ok {
                if copy {
                    (RevisionStage::AwaitSendCopy, RevisionAction::SendCopy)
                } else {
                    (RevisionStage::AwaitSend, RevisionAction::Send)
                }
            } else if copy {
                (RevisionStage::Over, RevisionAction::Abandon)
            } else {
                (RevisionStage::Over, RevisionAction::Fail)
            },
            _ => (RevisionStage::Over, RevisionAction::Fail),
        },
        RevisionEvent::Sent { ok, stopped } => match stage {
            RevisionStage::AwaitSend => if ok {
                (RevisionStage::Over, RevisionAction::Land)
            } else if stopped {
                (RevisionStage::Over, RevisionAction::Superseded)
            } else {
                (RevisionStage::Over, RevisionAction::Fail)
            },
            RevisionStage::AwaitSendCopy => if ok {
                (RevisionStage::Over, RevisionAction::LandCopy)
            } else {
                (RevisionStage::Over, RevisionAction::Fail)
            },
            _ => (RevisionStage::Over, RevisionAction::Fail),
        },
    }
}

/// Whether an action drops the blob.
pub open spec fn drops_blob(action: RevisionAction) -> bool {
    action is Land || action is LandCopy
}

/// The stage after a run of events.
pub open spec fn revision_run(complete: bool, events: Seq<RevisionEvent>) -> RevisionStage
    decreases events.len(),
{
    if events.len() == 0 {
        RevisionStage::AwaitCheck { complete }
    } else {
        revision_after(revision_run(complete, events.drop_last()), events.last()).0
    }
}

/// Whether each event is the one that the machine waits for.
pub open spec fn revision_fits(complete: bool, events: Seq<RevisionEvent>) -> bool
    decreases events.len(),
{
    events.len() > 0 ==> revision_fits(complete, events.drop_last()) && revision_expects(
        revision_run(complete, events.drop_last()),
        events.last(),
    )
}

/// A blob is dropped only once its bytes are on the remote, and bytes are sent as
/// a revision of the node only after the remote was found not to have moved on.
pub proof fn law_blob_outlives_its_upload(
    complete: bool,
    events: Seq<RevisionEvent>,
    e: RevisionEvent,
)
    requires
        revision_fits(complete, events.push(e)),
    ensures
        ({
            let (next, action) = revision_after(revision_run(complete, events), e);
            &&& drops_blob(action) ==> (e matches RevisionEvent::Sent { ok, .. } && ok)
            &&& (next is AwaitSend || action is Land) ==> events.push(e)[0] == (
            RevisionEvent::Checked { conflict: false })
            &&& (next is AwaitSendCopy || action is LandCopy || action is Abandon) ==> events.push(
                e,
            )[0] == (RevisionEvent::Checked { conflict: true })
        }),
{
    assert(events.push(e).drop_last() =~= events);
    lemma_first_event(complete, events.push(e));
    lemma_first_event(complete, events);
    if events.len() > 0 {
        assert(events.push(e)[0] == events[0]);
    }
}

proof fn lemma_first_event(complete: bool, events: Seq<RevisionEvent>)
    requires
        revision_fits(complete, events),
    ensures
        ({
            let stage = revision_run(complete, events);
            &&& events.len() > 0 ==> !(stage is AwaitCheck)
            &&& (stage is AwaitSend || stage == (RevisionStage::AwaitFill { copy: false })) ==> events.len()
                > 0 && events[0] == (RevisionEvent::Checked { conflict: false })
            &&& (stage is AwaitSendCopy || stage is AwaitPlace || stage == (
            RevisionStage::AwaitFill { copy: true })) ==> events.len() > 0 && events[0]
                == (RevisionEvent::Checked { conflict: true })
        }),
    decreases events.len(),
{
    if events.len() > 0 {
        let rest = events.drop_last();
        lemma_first_event(complete, rest);
        if rest.len() > 0 {
            assert(rest[0] == events[0]);
        } else {
            assert(events[0] == events.last());
        }
    }
}

/// The words for a write that landed as a copy, or that stayed in staging.
pub fn conflict_line(reason: &str, copy: bool, at: &str) -> (r: String)
    ensures
        r@ == reason@ + (if copy {
            "; local changes uploaded as "@
        } else {
            "; local changes kept at "@
        }) + at@,
{
    if copy {
        concat3(reason, "; local changes uploaded as ", at)
    } else {
        concat3(reason, "; local changes kept at ", at)
    }
}

/// Whether an action retires the row of an upload.
pub open spec fn retires_row(action: RevisionAction) -> bool {
    action is Land || action is LandCopy || action is Abandon
}

/// The row of an upload goes only when its bytes are on the remote, or when a copy that
/// has to be kept can be placed nowhere or cannot be made whole. A blob that cannot be
/// opened, and any other failure, leaves the row for another attempt.
pub proof fn law_row_outlives_its_upload(stage: RevisionStage, event: RevisionEvent)
    requires
        revision_expects(stage, event),
        retires_row(revision_after(stage, event).1),
    ensures
        (event matches RevisionEvent::Sent { ok, .. } && ok) || event == (RevisionEvent::Placed {
            found: false,
        }) || (stage == (RevisionStage::AwaitFill { copy: true }) && event == (
        RevisionEvent::Filled { ok: false })),
{
}

/// How many answers the machine of a rename waits for at most.
pub open spec fn rename_left(stage: RenameStage) -> nat {
    match stage {
        RenameStage::AwaitFetch => 4,
        RenameStage::AwaitMove { .. } => 3,
        RenameStage::AwaitMoveConflict => 1,
        RenameStage::AwaitRename { .. } => 2,
        RenameStage::AwaitRenameConflict { .. } => 1,
        RenameStage::Over => 0,
    }
}

/// Every answer brings a rename closer to its end, which is to be dropped, to land, or
/// to be left for another attempt.
pub proof fn law_rename_ends(stage: RenameStage, event: RenameEvent)
    requires
        rename_expects(stage, event),
    ensures
        ({
            let (next, action) = rename_after(stage, event);
            &&& rename_left(next) < rename_left(stage)
            &&& next is Over <==> (action is Drop || action is Land || action is Fail)
        }),
{
}

/// How many answers the machine of a creation waits for at most.
pub open spec fn create_left(stage: CreateStage) -> nat {
    match stage {
        CreateStage::AwaitCreate => 5,
        CreateStage::AwaitCreateConflict => 4,
        CreateStage::AwaitParent { .. } => 3,
        CreateStage::AwaitRoot { .. } => 2,
        CreateStage::AwaitRootConflict => 1,
        CreateStage::Over => 0,
    }
}

/// Every answer brings a creation closer to its end, which is to land or to be left for
/// another attempt.
pub proof fn law_creation_ends(stage: CreateStage, event: CreateEvent)
    requires
        create_expects(stage, event),
    ensures
        ({
            let (next, action) = create_after(stage, event);
            &&& create_left(next) < create_left(stage)
            &&& next is Over <==> (action is Land || action is Fail)
        }),
{
}

/// How many answers the machine of an upload waits for at most.
pub open spec fn revision_left(stage: RevisionStage) -> nat {
    match stage {
        RevisionStage::AwaitCheck { .. } => 4,
        RevisionStage::AwaitPlace { .. } => 3,
        RevisionStage::AwaitFill { .. } => 2,
        RevisionStage::AwaitSend => 1,
        RevisionStage::AwaitSendCopy => 1,
        RevisionStage::Over => 0,
    }
}

/// Every answer brings an upload closer to its end.
pub proof fn law_upload_ends(stage: RevisionStage, event: RevisionEvent)
    requires
        revision_expects(stage, event),
    ensures
        ({
            let (next, action) = revision_after(stage, event);
            &&& revision_left(next) < revision_left(stage)
            &&& next is Over <==> !(action is Place || action is Fill || action is Send || action
                is SendCopy)
        }),
{
}

/// Where the remote has a node that is to be renamed, against where it is to go.
pub open spec fn placement_of(remote: Option<Node>, parent: Uid, name: Seq<char>) -> Placement {
    match remote {
        None => Placement::Missing,
        Some(n) => if n.trashed {
            Placement::Missing
        } else if n.parent_uid is Some && (n.parent_uid->0)@ == parent {
            Placement::Here { same_name: n.name@ == name }
        } else {
            Placement::Elsewhere { same_name: n.name@ == name }
        },
    }
}

/// Where the remote has a node that is to be renamed, against where it is to go.
pub fn placement(remote: &Option<Node>, parent: &NodeUid, name: &str) -> (r: Placement)
    ensures
        r == placement_of(*remote, parent@, name@),
{
    match remote {
        None => Placement::Missing,
        Some(n) => {
            if n.trashed {
                return Placement::Missing;
            }
            let same_name = same_text(n.name.as_str(), name);
            let here = match &n.parent_uid {
                Some(p) => same_uid(p, parent),
                None => false,
            };
            if here {
                Placement::Here { same_name }
            } else {
                Placement::Elsewhere { same_name }
            }
        },
    }
}

/// The text of a name that a node lands under. `stamp` tells conflict names apart.
pub fn land_name(name: LandName, wanted: &str, current: &str, stamp: i64) -> (r: String)
    ensures
        r@ == (match name {
            LandName::Wanted => wanted@,
            LandName::Current => current@,
            LandName::Conflict => conflict_copy(wanted@, stamp as int),
        }),
{
    match name {
        LandName::Wanted => wanted.to_owned(),
        LandName::Current => current.to_owned(),
        LandName::Conflict => conflict_name(wanted, stamp),
    }
}

/// Where a conflict copy goes, and the name it is derived from: beside its node where
/// the place of that is known, and else into the root.
pub fn copy_place(
    place: Option<(NodeUid, String)>,
    root: Option<NodeUid>,
    uid: &NodeUid,
) -> (r: (Option<NodeUid>, String))
    ensures
        match place {
            Some(p) => r.0 == Some(p.0) && r.1 == p.1,
            None => r.0 == root && r.1@ == recovered_name(uid@),
        },
{
    match place {
        Some(p) => (Some(p.0), p.1),
        None => (root, node_name(&None, uid)),
    }
}

/// How the remote has a node while its rename is on the way: whether it is in the wanted
/// folder, and under which name.
pub struct RemotePlace {
    pub here: bool,
    pub name: LandName,
}

/// What a call makes of the remote, by its answer: only a call that worked changes
/// anything.
pub open spec fn carried_out(at: RemotePlace, action: RenameAction, call: Call) -> RemotePlace {
    match (action, call) {
        (RenameAction::Move { to }, Call::Done) => RemotePlace { here: true, name: to },
        (RenameAction::Rename { to }, Call::Done) => RemotePlace { name: to, ..at },
        _ => at,
    }
}

/// A rename on its way: where its machine is, what it says to do, and how the remote has
/// the node.
pub struct RenameRun {
    pub stage: RenameStage,
    pub action: RenameAction,
    pub at: RemotePlace,
}

/// A rename after the remote answered `calls`, of a node that it had at `p`.
pub open spec fn rename_run(p: Placement, calls: Seq<Call>) -> RenameRun
    decreases calls.len(),
{
    if calls.len() == 0 {
        let (stage, action) = rename_after(RenameStage::AwaitFetch, RenameEvent::Fetched(p));
        RenameRun { stage, action, at: RemotePlace { here: p is Here, name: LandName::Current } }
    } else {
        let before = rename_run(p, calls.drop_last());
        let (stage, action) = rename_after(before.stage, RenameEvent::Called(calls.last()));
        RenameRun { stage, action, at: carried_out(before.at, before.action, calls.last()) }
    }
}

/// Whether the machine waits for a call each time one is answered.
pub open spec fn rename_fits(p: Placement, calls: Seq<Call>) -> bool
    decreases calls.len(),
{
    calls.len() > 0 ==> rename_fits(p, calls.drop_last()) && rename_expects(
        rename_run(p, calls.drop_last()).stage,
        RenameEvent::Called(calls.last()),
    )
}

/// Whether a node was found under the wanted name.
pub open spec fn had_the_name(p: Placement) -> bool {
    p == (Placement::Here { same_name: true }) || p == (Placement::Elsewhere { same_name: true })
}

/// Whether two names are the same one: the wanted one may be the one that the node has.
pub open spec fn one_name(p: Placement, a: LandName, b: LandName) -> bool {
    a == b || (had_the_name(p) && !(a is Conflict) && !(b is Conflict))
}

proof fn lemma_rename_run(p: Placement, calls: Seq<Call>)
    requires
        rename_fits(p, calls),
    ensures
        ({
            let run = rename_run(p, calls);
            &&& p is Missing ==> run.stage is Over && run.action is Drop
            &&& run.stage is Over ==> run.action is Drop || run.action is Land || run.action is Fail
            &&& (run.stage matches RenameStage::AwaitMove { same_name } ==> p
                == (Placement::Elsewhere { same_name }) && !run.at.here && run.at.name is Current
                && run.action == (RenameAction::Move {
                to: if same_name {
                    LandName::Current
                } else {
                    LandName::Wanted
                },
            }) && calls.len() == 0)
            &&& (run.stage is AwaitMoveConflict ==> p is Elsewhere && !run.at.here && run.action
                == (RenameAction::Move { to: LandName::Conflict }) && calls.last() is Taken
                && calls.len() == 1)
            &&& (run.stage matches RenameStage::AwaitRename { stranded } ==> (stranded <==> p
                is Elsewhere) && (stranded <==> !run.at.here) && run.at.name is Current
                && !had_the_name(p) && run.action == (RenameAction::Rename { to: LandName::Wanted })
                && (stranded ==> calls.contains(Call::Gone)))
            &&& (run.stage matches RenameStage::AwaitRenameConflict { stranded } ==> (stranded
                <==> p is Elsewhere) && (stranded <==> !run.at.here) && run.at.name is Current
                && run.action == (RenameAction::Rename { to: LandName::Conflict })
                && calls.last() is Taken && (stranded ==> calls.contains(Call::Gone)))
            &&& run.stage is AwaitFetch ==> false
        }),
    decreases calls.len(),
{
    if calls.len() > 0 {
        let rest = calls.drop_last();
        lemma_rename_run(p, rest);
        assert(calls[calls.len() - 1] == calls.last());
        assert(calls.contains(calls.last()));
        if rest.contains(Call::Gone) {
            let i = choose|i: int| 0 <= i < rest.len() && rest[i] == Call::Gone;
            assert(calls[i] == Call::Gone);
        }
    }
}

/// What is told to have landed has landed: the node is under the name that is told, and in
/// the wanted folder, unless it is told to be stranded. It is stranded only where the
/// remote said that something is gone, and then it is where it was. A conflict name that
/// the user is told of is the one it has.
pub proof fn law_rename_lands_where_it_tells(p: Placement, calls: Seq<Call>)
    requires
        rename_fits(p, calls),
    ensures
        ({
            let run = rename_run(p, calls);
            run.action matches RenameAction::Land { name, moved, renamed, stranded } ==> {
                &&& one_name(p, name, run.at.name)
                &&& stranded <==> !run.at.here
                &&& stranded ==> p is Elsewhere && calls.contains(Call::Gone)
                &&& !stranded && p is Elsewhere ==> calls.len() > 0 && calls.last() is Done
                &&& calls.len() == 0 ==> p == (Placement::Here { same_name: true })
                &&& run.at.name is Conflict <==> moved || renamed
                &&& moved ==> p is Elsewhere && !stranded
                &&& !(moved && renamed)
            }
        }),
{
    lemma_rename_run(p, calls);
    if calls.len() > 0 {
        lemma_rename_run(p, calls.drop_last());
        assert(calls.drop_last().contains(Call::Gone) ==> calls.contains(Call::Gone)) by {
            if calls.drop_last().contains(Call::Gone) {
                let i = choose|i: int|
                    0 <= i < calls.drop_last().len() && calls.drop_last()[i] == Call::Gone;
                assert(calls[i] == Call::Gone);
            }
        }
        assert(calls[calls.len() - 1] == calls.last());
    }
}

/// A rename that everything answers well lands under the wanted name in the wanted folder,
/// with at most one call; it is dropped just where there is nothing to rename; and it
/// fails only on a call that did not work.
pub proof fn law_rename_fails_only_on_a_failure(p: Placement, calls: Seq<Call>)
    requires
        rename_fits(p, calls),
    ensures
        ({
            let run = rename_run(p, calls);
            &&& run.action is Drop <==> p is Missing
            &&& run.action is Fail ==> calls.len() > 0 && !(calls.last() is Done)
            &&& calls.len() > 0 && calls.last() is Done ==> run.action is Land
            &&& calls.len() > 0 && calls.last() is Failed ==> run.action is Fail
            &&& calls.len() == 0 && !(p is Missing) && p != (Placement::Here { same_name: true })
                ==> run.action is Move || run.action is Rename
            &&& calls.len() == 1 && calls.last() is Done ==> run.at.here && one_name(
                p,
                run.at.name,
                LandName::Wanted,
            )
            &&& calls.len() == 1 && calls.last() is Taken ==> run.action == (if p is Here {
                RenameAction::Rename { to: LandName::Conflict }
            } else {
                RenameAction::Move { to: LandName::Conflict }
            })
            &&& calls.len() == 1 && calls.last() is Gone && p == (Placement::Elsewhere {
                same_name: false,
            }) ==> run.action == (RenameAction::Rename { to: LandName::Wanted })
        }),
{
    lemma_rename_run(p, calls);
    if calls.len() > 0 {
        lemma_rename_run(p, calls.drop_last());
        if calls.len() == 1 {
            assert(calls.drop_last() =~= Seq::<Call>::empty());
        }
    }
}

/// A creation on its way: where its machine is, what it says to do, and what the remote
/// made: under which name, and whether in the root.
pub struct CreateRun {
    pub stage: CreateStage,
    pub action: CreateAction,
    pub made: Option<(LandName, bool)>,
    /// The name that was tried last.
    pub tried: LandName,
}

/// A creation after some answers. It begins by creating the node under the wanted name in
/// its folder.
pub open spec fn create_run(events: Seq<CreateEvent>) -> CreateRun
    decreases events.len(),
{
    if events.len() == 0 {
        CreateRun {
            stage: CreateStage::AwaitCreate,
            action: CreateAction::Create { name: LandName::Wanted, in_root: false },
            made: None,
            tried: LandName::Wanted,
        }
    } else {
        let before = create_run(events.drop_last());
        let (stage, action) = create_after(before.stage, events.last());
        CreateRun {
            stage,
            action,
            made: match (before.action, events.last()) {
                (CreateAction::Create { name, in_root }, CreateEvent::Called(Call::Done)) => Some(
                    (name, in_root),
                ),
                _ => before.made,
            },
            tried: match action {
                CreateAction::Create { name, .. } => name,
                _ => before.tried,
            },
        }
    }
}

/// Whether each answer is the one that the machine waits for.
pub open spec fn create_fits(events: Seq<CreateEvent>) -> bool
    decreases events.len(),
{
    events.len() > 0 ==> create_fits(events.drop_last()) && create_expects(
        create_run(events.drop_last()).stage,
        events.last(),
    )
}

proof fn lemma_create_run(events: Seq<CreateEvent>)
    requires
        create_fits(events),
    ensures
        ({
            let run = create_run(events);
            &&& !(run.stage is Over) ==> run.made is None
            &&& (run.stage is AwaitCreate ==> events.len() == 0)
            &&& (run.stage is AwaitCreateConflict ==> run.action == (CreateAction::Create {
                name: LandName::Conflict,
                in_root: false,
            }) && events.last() == CreateEvent::Called(Call::Taken))
            &&& (run.stage is AwaitParent ==> run.action is AskParent)
            &&& (run.stage matches CreateStage::AwaitParent { name } ==> !(name is Current) && name
                == run.tried)
            &&& (run.action matches CreateAction::Create { name, .. } ==> name == run.tried)
            &&& (run.stage matches CreateStage::AwaitRoot { name } ==> run.action
                == (CreateAction::Create { name, in_root: true }) && !(name is Current)
                && events.last() == (CreateEvent::Parent { gone: true, root: true }))
            &&& (run.stage is AwaitRootConflict ==> run.action == (CreateAction::Create {
                name: LandName::Conflict,
                in_root: true,
            }) && events.last() == CreateEvent::Called(Call::Taken))
            &&& run.stage is Over ==> run.action is Land || run.action is Fail
        }),
    decreases events.len(),
{
    if events.len() > 0 {
        lemma_create_run(events.drop_last());
    }
}

/// What is told to be created is what the remote made, once: under the name and in the
/// place that is told. It is in the root just where its folder was said to be gone, and
/// the user is told of a taken name just where that is why the name differs.
pub proof fn law_creation_lands_where_it_tells(events: Seq<CreateEvent>)
    requires
        create_fits(events),
    ensures
        ({
            let run = create_run(events);
            &&& (run.action matches CreateAction::Land { name, taken, rehomed } ==> run.made
                == Some((name, rehomed)) && (taken <==> name is Conflict && !rehomed))
            &&& run.made is Some ==> run.action is Land
            &&& run.action is Fail ==> run.made is None
        }),
{
    lemma_create_run(events);
    if events.len() > 0 {
        lemma_create_run(events.drop_last());
    }
}

/// A creation fails only on a call that did not work or on a folder that is still there.
/// A name that is taken is tried again as a conflict name in the same place; any other
/// failure in the folder asks whether the folder is gone, and if so the node goes to the
/// root under the name that was tried last.
pub proof fn law_creation_fails_only_on_a_failure(events: Seq<CreateEvent>)
    requires
        create_fits(events),
        events.len() > 0,
    ensures
        ({
            let before = create_run(events.drop_last());
            let run = create_run(events);
            let last = events.last();
            &&& last == CreateEvent::Called(Call::Done) ==> run.action is Land
            &&& run.action is Fail && last is Called ==> !(last->Called_0 is Done)
                && before.action->in_root
            &&& run.action is Fail && last is Parent ==> !(last->gone && last->root)
            &&& before.action is Create && !(before.action->Create_name is Conflict) && last
                == CreateEvent::Called(Call::Taken) ==> run.action == (CreateAction::Create {
                name: LandName::Conflict,
                in_root: before.action->in_root,
            })
            &&& before.action is Create && !before.action->in_root && (last == CreateEvent::Called(
                Call::Gone,
            ) || last == CreateEvent::Called(Call::Failed)) ==> run.action is AskParent
            &&& before.stage is AwaitParent && last == (CreateEvent::Parent {
                gone: true,
                root: true,
            }) ==> run.action == (CreateAction::Create {
                name: before.tried,
                in_root: true,
            })
        }),
{
    lemma_create_run(events.drop_last());
}

/// An upload fails only after a step failed.
pub proof fn law_upload_fails_only_on_a_failure(stage: RevisionStage, event: RevisionEvent)
    requires
        revision_expects(stage, event),
    ensures
        revision_after(stage, event).1 is Fail ==> event is CheckFailed || event is Unopened
            || event == (RevisionEvent::Filled { ok: false }) || (event matches RevisionEvent::Sent {
            ok,
            ..
        } && !ok),
        event is CheckFailed || event is Unopened ==> revision_after(stage, event).1 is Fail,
{
}

/// The answers that an upload gets when everything works, by whether the remote moved on
/// and whether the blob is the whole file.
pub open spec fn all_well(conflict: bool, complete: bool, stopped: bool) -> Seq<RevisionEvent> {
    let checked = seq![RevisionEvent::Checked { conflict }];
    let placed = if conflict {
        seq![RevisionEvent::Placed { found: true }]
    } else {
        seq![]
    };
    let filled = if complete {
        seq![]
    } else {
        seq![RevisionEvent::Filled { ok: true }]
    };
    checked + placed + filled + seq![RevisionEvent::Sent { ok: true, stopped }]
}

/// The last action of a run.
pub open spec fn revision_told(complete: bool, events: Seq<RevisionEvent>) -> RevisionAction {
    revision_after(revision_run(complete, events.drop_last()), events.last()).1
}

/// An upload for which everything works lands: as a revision of its node where the remote
/// has not moved on, and as a copy beside it where it has. A blob that is the whole file
/// needs no filling, and one that is not is filled before it is sent.
pub proof fn law_upload_lands(conflict: bool, complete: bool, stopped: bool)
    ensures
        ({
            let events = all_well(conflict, complete, stopped);
            &&& revision_fits(complete, events)
            &&& revision_told(complete, events) == (if conflict {
                RevisionAction::LandCopy
            } else {
                RevisionAction::Land
            })
            &&& revision_run(complete, events) is Over
            &&& revision_told(complete, events.drop_last()) == (if conflict {
                RevisionAction::SendCopy
            } else {
                RevisionAction::Send
            })
        }),
{
    reveal_with_fuel(revision_run, 6);
    reveal_with_fuel(revision_fits, 6);
    let events = all_well(conflict, complete, stopped);
    let a = events.drop_last();
    let b = a.drop_last();
    let c = b.drop_last();
    if conflict && !complete {
        assert(a =~= seq![
            RevisionEvent::Checked { conflict },
            RevisionEvent::Placed { found: true },
            RevisionEvent::Filled { ok: true },
        ]);
        assert(b =~= seq![
            RevisionEvent::Checked { conflict },
            RevisionEvent::Placed { found: true },
        ]);
        assert(c =~= seq![RevisionEvent::Checked { conflict }]);
        assert(c.drop_last() =~= Seq::<RevisionEvent>::empty());
    } else if conflict {
        assert(a =~= seq![
            RevisionEvent::Checked { conflict },
            RevisionEvent::Placed { found: true },
        ]);
        assert(b =~= seq![RevisionEvent::Checked { conflict }]);
        assert(c =~= Seq::<RevisionEvent>::empty());
    } else if !complete {
        assert(a =~= seq![
            RevisionEvent::Checked { conflict },
            RevisionEvent::Filled { ok: true },
        ]);
        assert(b =~= seq![RevisionEvent::Checked { conflict }]);
        assert(c =~= Seq::<RevisionEvent>::empty());
    } else {
        assert(a =~= seq![RevisionEvent::Checked { conflict }]);
        assert(b =~= Seq::<RevisionEvent>::empty());
    }
}

/// Bytes are sent only when they are the whole file or were filled, and what was sent
/// lands as what it was sent as. An upload that was stopped by a newer write is left to
/// that one; a copy cannot be.
pub proof fn law_upload_sends_whole_files(
    complete: bool,
    events: Seq<RevisionEvent>,
    e: RevisionEvent,
)
    requires
        revision_fits(complete, events.push(e)),
    ensures
        ({
            let before = revision_run(complete, events);
            let (next, action) = revision_after(before, e);
            &&& action is Send || action is SendCopy ==> complete || e == (RevisionEvent::Filled {
                ok: true,
            })
            &&& action is Fill ==> !complete
            &&& action is Place <==> e == (RevisionEvent::Checked { conflict: true })
            &&& next is AwaitSend <==> action is Send
            &&& next is AwaitSendCopy <==> action is SendCopy
            &&& (e matches RevisionEvent::Sent { ok, stopped } ==> {
                &&& ok ==> action == (if before is AwaitSend {
                    RevisionAction::Land
                } else {
                    RevisionAction::LandCopy
                })
                &&& action is Superseded <==> !ok && stopped && before is AwaitSend
            })
            &&& action is Superseded ==> e is Sent
            &&& e == (RevisionEvent::Placed { found: false }) ==> action is Abandon
        }),
{
    assert(events.push(e).drop_last() =~= events);
    lemma_whole(complete, events);
}

proof fn lemma_whole(complete: bool, events: Seq<RevisionEvent>)
    requires
        revision_fits(complete, events),
    ensures
        ({
            let stage = revision_run(complete, events);
            &&& (stage matches RevisionStage::AwaitCheck { complete: c } ==> c == complete)
            &&& (stage matches RevisionStage::AwaitPlace { complete: c } ==> c == complete)
            &&& stage is AwaitFill ==> !complete
        }),
    decreases events.len(),
{
    if events.len() > 0 {
        lemma_whole(complete, events.drop_last());
    }
}

/// A node that is gone or in the trash has no place; any other is in the wanted folder just
/// where the remote says that folder is its parent, and has the wanted name just where the
/// remote says so.
pub proof fn law_placement_is_what_the_remote_says(
    remote: Option<Node>,
    parent: Uid,
    name: Seq<char>,
)
    ensures
        ({
            let p = placement_of(remote, parent, name);
            &&& p is Missing <==> remote is None || (remote->0).trashed
            &&& p is Here <==> !(p is Missing) && (remote->0).parent_uid is Some && ((
            remote->0).parent_uid->0)@ == parent
            &&& !(p is Missing) ==> (had_the_name(p) <==> (remote->0).name@ == name)
        }),
{
}

/// A rename or a creation can be read just where its node, its folder and its name can, and
/// the folder is one that the remote knows.
pub proof fn law_readable_rows_name_everything(op: PendingOp, rename: bool)
    ensures
        land_fault(op, rename) is None <==> uid_written(op.uid@) is Some && op.parent_uid is Some
            && !text_is_local((op.parent_uid->0)@) && uid_written((op.parent_uid->0)@) is Some
            && op.name is Some,
{
}

} // verus!

//! Queued operations: what the daemon owes the remote.

use crate::uid::NodeUid;
use vstd::prelude::*;

verus! {

/// What a queued operation does.
#[derive(Debug, Clone, Copy, PartialEq, Eq, Structural)]
pub enum OpKind {
    /// Upload the staged bytes of a file that the remote knows.
    Revision,
    /// Create a file, with the bytes that ride on it.
    Create,
    /// Create a folder.
    Mkdir,
    /// Give a node a new parent and name.
    Rename,
    /// Move a node to the trash.
    Trash,
    /// A row that this daemon does not understand.
    Unknown,
}

/// A row of the queue.
#[derive(Debug)]
pub struct PendingOp {
    pub id: i64,
    pub kind: OpKind,
    pub uid: String,
    pub parent_uid: Option<String>,
    pub name: Option<String>,
    pub blob_path: Option<String>,
    pub meta_json: Option<String>,
    pub created_at: i64,
    pub attempts: u32,
    pub last_error: Option<String>,
    /// The time, in milliseconds, before which the row is not picked up.
    pub next_attempt_at: i64,
}

/// What a row says, with its texts as sequences.
#[verifier::ext_equal]
pub struct Row {
    pub id: int,
    pub kind: OpKind,
    pub uid: Seq<char>,
    pub parent_uid: Option<Seq<char>>,
    pub name: Option<Seq<char>>,
    pub blob_path: Option<Seq<char>>,
    pub meta_json: Option<Seq<char>>,
    pub created_at: int,
    pub attempts: nat,
    pub last_error: Option<Seq<char>>,
    pub next_attempt_at: int,
}

/// An optional text as a sequence.
pub open spec fn opt_view(s: Option<String>) -> Option<Seq<char>> {
    match s {
        Some(t) => Some(t@),
        None => None,
    }
}

impl View for PendingOp {
    type V = Row;

    open spec fn view(&self) -> Row {
        Row {
            id: self.id as int,
            kind: self.kind,
            uid: self.uid@,
            parent_uid: opt_view(self.parent_uid),
            name: opt_view(self.name),
            blob_path: opt_view(self.blob_path),
            meta_json: opt_view(self.meta_json),
            created_at: self.created_at as int,
            attempts: self.attempts as nat,
            last_error: opt_view(self.last_error),
            next_attempt_at: self.next_attempt_at as int,
        }
    }
}

/// A fresh row: never attempted, with no error.
pub open spec fn fresh_row(kind: OpKind, uid: Seq<char>, created_at: int, due: int) -> Row {
    Row {
        id: 0,
        kind,
        uid,
        parent_uid: None,
        name: None,
        blob_path: None,
        meta_json: None,
        created_at,
        attempts: 0,
        last_error: None,
        next_attempt_at: due,
    }
}

/// The row that uploads a staged blob as the new content of a node.
pub fn revision_op(
    uid: &NodeUid,
    blob_path: String,
    meta_json: String,
    created_at: i64,
    due: i64,
) -> (r: PendingOp)
    ensures
        r@ == (Row {
            blob_path: Some(blob_path@),
            meta_json: Some(meta_json@),
            ..fresh_row(OpKind::Revision, uid@.text(), created_at as int, due as int)
        }),
{
    PendingOp {
        id: 0,
        kind: OpKind::Revision,
        uid: uid.to_text(),
        parent_uid: None,
        name: None,
        blob_path: Some(blob_path),
        meta_json: Some(meta_json),
        created_at,
        attempts: 0,
        last_error: None,
        next_attempt_at: due,
    }
}

/// The row that makes a locally invented node real. A node under a transient name
/// is parked until `park_until`, and any other is due at once.
pub fn create_op(
    uid: &NodeUid,
    parent_uid: &NodeUid,
    name: String,
    is_dir: bool,
    hold: bool,
    park_until: i64,
    created_at: i64,
) -> (r: PendingOp)
    ensures
        r@ == (Row {
            parent_uid: Some(parent_uid@.text()),
            name: Some(name@),
            ..fresh_row(
                if is_dir {
                    OpKind::Mkdir
                } else {
                    OpKind::Create
                },
                uid@.text(),
                created_at as int,
                if hold {
                    park_until as int
                } else {
                    0
                },
            )
        }),
{
    PendingOp {
        id: 0,
        kind: if is_dir {
            OpKind::Mkdir
        } else {
            OpKind::Create
        },
        uid: uid.to_text(),
        parent_uid: Some(parent_uid.to_text()),
        name: Some(name),
        blob_path: None,
        meta_json: None,
        created_at,
        attempts: 0,
        last_error: None,
        next_attempt_at: if hold {
            park_until
        } else {
            0
        },
    }
}

/// The row that gives a node a new parent and name. It records the desired end,
/// so it supersedes an earlier one.
pub fn rename_op(
    uid: &NodeUid,
    new_parent_uid: &NodeUid,
    new_name: String,
    meta_json: String,
    created_at: i64,
) -> (r: PendingOp)
    ensures
        r@ == (Row {
            parent_uid: Some(new_parent_uid@.text()),
            name: Some(new_name@),
            meta_json: Some(meta_json@),
            ..fresh_row(OpKind::Rename, uid@.text(), created_at as int, 0)
        }),
{
    PendingOp {
        id: 0,
        kind: OpKind::Rename,
        uid: uid.to_text(),
        parent_uid: Some(new_parent_uid.to_text()),
        name: Some(new_name),
        blob_path: None,
        meta_json: Some(meta_json),
        created_at,
        attempts: 0,
        last_error: None,
        next_attempt_at: 0,
    }
}

/// A row that was just queued was not tried yet and failed at nothing; it waits from when it
/// was made until it is due.
pub proof fn law_fresh_rows_are_untried(kind: OpKind, uid: Seq<char>, created_at: int, due: int)
    ensures
        ({
            let row = fresh_row(kind, uid, created_at, due);
            &&& row.kind == kind && row.uid == uid
            &&& row.attempts == 0 && row.last_error is None
            &&& row.created_at == created_at && row.next_attempt_at == due
            &&& row.parent_uid is None && row.name is None && row.blob_path is None
                && row.meta_json is None
        }),
{
}

} // verus!

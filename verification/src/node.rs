//! Drive nodes, as far as the filesystem reads them.

use crate::access::MemberRole;
use crate::names::{media_type, media_type_for};
use crate::text::copy_opt_text;
use crate::uid::{same_uid, NodeUid, Uid};
use crate::uidmap::{UidMap, UidSet};
use vstd::prelude::*;

verus! {

/// Our membership in the share that a node was reached through.
#[derive(Debug)]
pub struct ShareMembership {
    pub share_id: String,
    /// The role, where the server sent one that is known exactly.
    pub role: Option<MemberRole>,
}

/// What an album node adds to a folder.
#[derive(Debug)]
pub struct AlbumProperties {
    pub photo_count: i32,
    pub cover_photo_uid: Option<NodeUid>,
    pub last_activity_time: Option<i64>,
}

/// Folder- or file-specific data.
#[derive(Debug)]
pub enum NodeKind {
    Folder,
    File {
        media_type: String,
        /// Encrypted size on storage.
        total_size_on_storage: i64,
        /// Identity of the active revision, once one was sealed.
        active_revision_id: Option<String>,
        /// Plaintext size, once the extended attributes were decrypted.
        claimed_size: Option<i64>,
        claimed_modification_time: Option<String>,
        content_sha1: Option<String>,
    },
}

/// A decrypted node.
#[derive(Debug)]
pub struct Node {
    pub uid: NodeUid,
    pub parent_uid: Option<NodeUid>,
    pub kind: NodeKind,
    pub name: String,
    pub creation_time: i64,
    pub modification_time: i64,
    pub trashed: bool,
    pub is_shared: bool,
    pub is_shared_publicly: bool,
    pub membership: Option<ShareMembership>,
    pub album: Option<AlbumProperties>,
}

impl Clone for ShareMembership {
    fn clone(&self) -> (r: Self)
        ensures
            r == *self,
    {
        ShareMembership { share_id: self.share_id.clone(), role: self.role }
    }
}

/// A copy of an optional uid.
pub fn copy_opt_uid(uid: &Option<NodeUid>) -> (r: Option<NodeUid>)
    ensures
        r == *uid,
{
    match uid {
        Some(u) => Some(u.clone()),
        None => None,
    }
}

impl Clone for AlbumProperties {
    fn clone(&self) -> (r: Self)
        ensures
            r == *self,
    {
        AlbumProperties {
            photo_count: self.photo_count,
            cover_photo_uid: copy_opt_uid(&self.cover_photo_uid),
            last_activity_time: self.last_activity_time,
        }
    }
}

impl Clone for NodeKind {
    fn clone(&self) -> (r: Self)
        ensures
            r == *self,
    {
        match self {
            NodeKind::Folder => NodeKind::Folder,
            NodeKind::File {
                media_type,
                total_size_on_storage,
                active_revision_id,
                claimed_size,
                claimed_modification_time,
                content_sha1,
            } => NodeKind::File {
                media_type: media_type.clone(),
                total_size_on_storage: *total_size_on_storage,
                active_revision_id: copy_opt_text(active_revision_id),
                claimed_size: *claimed_size,
                claimed_modification_time: copy_opt_text(claimed_modification_time),
                content_sha1: copy_opt_text(content_sha1),
            },
        }
    }
}

impl Clone for Node {
    fn clone(&self) -> (r: Self)
        ensures
            r == *self,
    {
        Node {
            uid: self.uid.clone(),
            parent_uid: copy_opt_uid(&self.parent_uid),
            kind: self.kind.clone(),
            name: self.name.clone(),
            creation_time: self.creation_time,
            modification_time: self.modification_time,
            trashed: self.trashed,
            is_shared: self.is_shared,
            is_shared_publicly: self.is_shared_publicly,
            membership: match &self.membership {
                Some(m) => Some(m.clone()),
                None => None,
            },
            album: match &self.album {
                Some(a) => Some(a.clone()),
                None => None,
            },
        }
    }
}

impl NodeKind {
    /// The plaintext size that a node of this kind reports.
    pub open spec fn size(self) -> u64 {
        match self {
            NodeKind::Folder => 0,
            NodeKind::File { claimed_size, total_size_on_storage, .. } => {
                let n = match claimed_size {
                    Some(c) => c,
                    None => total_size_on_storage,
                };
                if n < 0 {
                    0
                } else {
                    n as u64
                }
            },
        }
    }

    /// The same kind with its plaintext size set; a folder has none to set.
    pub open spec fn with_size(self, len: u64) -> NodeKind {
        match self {
            NodeKind::Folder => NodeKind::Folder,
            NodeKind::File {
                media_type,
                total_size_on_storage,
                active_revision_id,
                claimed_size,
                claimed_modification_time,
                content_sha1,
            } => NodeKind::File {
                media_type,
                total_size_on_storage,
                active_revision_id,
                claimed_size: Some(len as i64),
                claimed_modification_time,
                content_sha1,
            },
        }
    }
}

impl Node {
    /// The node with the size of its queued write, where it has one.
    pub open spec fn sized(self, sizes: Map<Uid, u64>) -> Node {
        if sizes.dom().contains(self.uid@) {
            Node { kind: self.kind.with_size(sizes[self.uid@]), ..self }
        } else {
            self
        }
    }

    pub fn is_folder(&self) -> (r: bool)
        ensures
            r == (self.kind is Folder),
    {
        match &self.kind {
            NodeKind::Folder => true,
            _ => false,
        }
    }

    /// Set the plaintext size of a file; a folder is left alone.
    pub fn set_size(&mut self, len: u64)
        ensures
            *final(self) == (Node { kind: old(self).kind.with_size(len), ..*old(self) }),
    {
        let kind = match &self.kind {
            NodeKind::Folder => NodeKind::Folder,
            NodeKind::File {
                media_type,
                total_size_on_storage,
                active_revision_id,
                claimed_size: _,
                claimed_modification_time,
                content_sha1,
            } => NodeKind::File {
                media_type: media_type.clone(),
                total_size_on_storage: *total_size_on_storage,
                active_revision_id: copy_opt_text(active_revision_id),
                claimed_size: Some(len as i64),
                claimed_modification_time: copy_opt_text(claimed_modification_time),
                content_sha1: copy_opt_text(content_sha1),
            },
        };
        self.kind = kind;
    }
}

/// The plaintext size, in bytes, that a node reports. A size that is not known
/// yet is the size on storage, and a negative one counts as nothing.
pub fn node_size(node: &Node) -> (r: u64)
    ensures
        r == node.kind.size(),
{
    match &node.kind {
        NodeKind::Folder => 0,
        NodeKind::File { claimed_size, total_size_on_storage, .. } => {
            let n: i64 = match claimed_size {
                Some(c) => *c,
                None => *total_size_on_storage,
            };
            if n < 0 {
                0
            } else {
                n as u64
            }
        },
    }
}

/// The identity of a file's active revision, if it has one.
pub fn node_revision_id(node: &Node) -> (r: Option<String>)
    ensures
        r == (match node.kind {
            NodeKind::Folder => None::<String>,
            NodeKind::File { active_revision_id, .. } => active_revision_id,
        }),
{
    match &node.kind {
        NodeKind::Folder => None,
        NodeKind::File { active_revision_id, .. } => copy_opt_text(active_revision_id),
    }
}

/// The plaintext fingerprint of a file, if its active revision carried one.
pub fn node_content_sha1(node: &Node) -> (r: Option<String>)
    ensures
        r == (match node.kind {
            NodeKind::Folder => None::<String>,
            NodeKind::File { content_sha1, .. } => content_sha1,
        }),
{
    match &node.kind {
        NodeKind::Folder => None,
        NodeKind::File { content_sha1, .. } => copy_opt_text(content_sha1),
    }
}

/// Whether a node belongs in the listing of `folder_uid`.
pub open spec fn visible_in(node: Node, folder_uid: Uid, hidden: Set<Uid>) -> bool {
    !node.trashed && node.uid@ != folder_uid && !hidden.contains(node.uid@)
}

/// Whether a node belongs in the listing of `folder_uid`: it is not in the
/// trash, it is not the folder itself, and it was not removed through this
/// daemon.
pub fn node_visible(node: &Node, folder_uid: &NodeUid, hidden: &UidSet) -> (r: bool)
    ensures
        r == visible_in(*node, folder_uid@, hidden@),
{
    !node.trashed && !same_uid(&node.uid, folder_uid) && !hidden.contains(&node.uid)
}

/// Overwrite each file's size with the size of its queued write, where it has
/// one. Folders and nodes with nothing queued are left alone.
pub fn apply_pending_sizes(nodes: &mut Vec<Node>, sizes: &UidMap<u64>)
    ensures
        final(nodes)@.len() == old(nodes)@.len(),
        forall|i: int|
            0 <= i < old(nodes)@.len() ==> #[trigger] final(nodes)@[i] == old(nodes)@[i].sized(
                sizes@,
            ),
{
    let ghost before = nodes@;
    let mut out: Vec<Node> = Vec::new();
    let mut i: usize = 0;
    while i < nodes.len()
        invariant
            i <= nodes@.len(),
            nodes@ == before,
            out@.len() == i,
            forall|j: int| 0 <= j < i ==> #[trigger] out@[j] == before[j].sized(sizes@),
        decreases nodes@.len() - i,
    {
        let mut node = nodes[i].clone();
        match sizes.get(&nodes[i].uid) {
            Some(len) => {
                node.set_size(*len);
            },
            None => {},
        }
        out.push(node);
        i = i + 1;
    }
    *nodes = out;
}

/// Fabricate the node the server would have returned, for a create that could
/// not reach it. Everything the kernel asks about a fresh node is knowable
/// locally; the uid is the only invention.
pub fn local_node(
    uid: NodeUid,
    parent_uid: NodeUid,
    name: String,
    is_dir: bool,
    now: i64,
) -> (r: Node)
    ensures
        r.uid == uid,
        r.parent_uid == Some(parent_uid),
        r.name == name,
        r.creation_time == now,
        r.modification_time == now,
        !r.trashed,
        !r.is_shared,
        !r.is_shared_publicly,
        r.membership is None,
        r.album is None,
        is_dir ==> r.kind is Folder,
        !is_dir ==> match r.kind {
            NodeKind::Folder => false,
            NodeKind::File {
                media_type: m,
                total_size_on_storage,
                active_revision_id,
                claimed_size,
                claimed_modification_time,
                content_sha1,
            } => m@ == media_type(name@) && total_size_on_storage == 0 && active_revision_id is None
                && claimed_size == Some(0i64) && claimed_modification_time is None
                && content_sha1 is None,
        },
{
    let kind = if is_dir {
        NodeKind::Folder
    } else {
        NodeKind::File {
            media_type: media_type_for(name.as_str()),
            total_size_on_storage: 0,
            active_revision_id: None,
            claimed_size: Some(0),
            claimed_modification_time: None,
            content_sha1: None,
        }
    };
    Node {
        uid,
        parent_uid: Some(parent_uid),
        kind,
        name,
        creation_time: now,
        modification_time: now,
        trashed: false,
        is_shared: false,
        is_shared_publicly: false,
        membership: None,
        album: None,
    }
}

/// A file is as large as it claims, and as what is stored where it claims nothing; a size
/// below nothing counts as nothing, and a folder has none.
pub proof fn law_size_is_what_a_file_claims(kind: NodeKind)
    ensures
        kind is Folder ==> kind.size() == 0,
        kind is File && kind->claimed_size is Some && kind->claimed_size->0 >= 0 ==> kind.size()
            == kind->claimed_size->0,
        kind is File && kind->claimed_size is None && kind->total_size_on_storage >= 0
            ==> kind.size() == kind->total_size_on_storage,
        kind is File && kind->claimed_size is Some && kind->claimed_size->0 < 0 ==> kind.size()
            == 0,
{
}

/// A size that is set is the size that is read, and nothing else of the file changes; a
/// folder takes none.
pub proof fn law_set_size_is_read_back(node: Node, sizes: Map<Uid, u64>, len: u64)
    requires
        len <= i64::MAX,
    ensures
        node.kind is File ==> node.kind.with_size(len).size() == len,
        node.kind is Folder ==> node.kind.with_size(len) == node.kind,
        node.kind is File ==> node.kind.with_size(len) is File
            && node.kind.with_size(len)->active_revision_id == node.kind->active_revision_id
            && node.kind.with_size(len)->media_type == node.kind->media_type
            && node.kind.with_size(len)->total_size_on_storage == node.kind->total_size_on_storage
            && node.kind.with_size(len)->claimed_modification_time
            == node.kind->claimed_modification_time && node.kind.with_size(len)->content_sha1
            == node.kind->content_sha1,
        sizes.contains_key(node.uid@) && sizes[node.uid@] == len && node.kind is File ==> node.sized(
            sizes,
        ).kind.size() == len,
        !sizes.contains_key(node.uid@) ==> node.sized(sizes) == node,
        node.sized(sizes) == (Node { kind: node.sized(sizes).kind, ..node }),
{
}

/// A node shows in a folder just where it is not in the trash, is not about to go there, and
/// is not the folder itself.
pub proof fn law_hidden_nodes_do_not_show(node: Node, folder: Uid, hidden: Set<Uid>)
    ensures
        node.trashed ==> !visible_in(node, folder, hidden),
        hidden.contains(node.uid@) ==> !visible_in(node, folder, hidden),
        node.uid@ == folder ==> !visible_in(node, folder, hidden),
        !node.trashed && !hidden.contains(node.uid@) && node.uid@ != folder ==> visible_in(
            node,
            folder,
            hidden,
        ),
{
}

} // verus!

//! What a front-end sees of the tree, and what it keeps on this machine.

use crate::error::{CoreError, ErrorKind};
use crate::node::{node_size, Node};
use crate::state::{Entry, State, Tree};
use crate::text::{concat2, concat4, decimal, decimal_text};
use crate::trash::DirEntry;
use crate::uid::{is_local_uid, is_virtual_uid, parse_uid, uid_written, NodeUid, Uid};
use vstd::prelude::*;

verus! {

broadcast use vstd::std_specs::hash::group_hash_axioms;

/// The resident children of a folder, in order.
pub open spec fn children_of(t: Tree, kids: Seq<u64>) -> Seq<Entry>
    decreases kids.len(),
{
    if kids.len() == 0 {
        seq![]
    } else if t.entries.contains_key(kids.last()) {
        children_of(t, kids.drop_last()).push(t.entries[kids.last()])
    } else {
        children_of(t, kids.drop_last())
    }
}

/// The listing of a folder: nothing where it is not resident.
pub open spec fn folder_listing(t: Tree, ino: u64) -> Seq<Entry> {
    if t.listings.contains_key(ino) {
        children_of(t, t.listings[ino])
    } else {
        seq![]
    }
}

/// Whether `e` tells of the resident entry. What is pinned and cached is filled in
/// later.
pub open spec fn tells_entry(e: DirEntry, x: Entry) -> bool {
    &&& e.name == x.node.name
    &&& e.is_dir == x.node.kind is Folder
    &&& e.size == x.node.kind.size()
    &&& e.modified == x.node.modification_time
    &&& !e.pinned
    &&& !e.cached
    &&& e.uid@ == x.uid@.text()
    &&& e.path@.len() == 0
    &&& e.role@.len() == 0
}

/// The listing of a folder, as a front-end is told of it.
pub fn list_dir(state: &State, ino: u64) -> (r: Vec<DirEntry>)
    ensures
        r@.len() == folder_listing(state@, ino).len(),
        forall|i: int|
            0 <= i < r@.len() ==> tells_entry(#[trigger] r@[i], folder_listing(state@, ino)[i]),
{
    let mut out: Vec<DirEntry> = Vec::new();
    let kids = match state.children.get(&ino) {
        None => {
            return out;
        },
        Some(k) => k,
    };
    assert(state@.listings[ino] == kids@);
    let mut i: usize = 0;
    assert(kids@.take(0) =~= Seq::<u64>::empty());
    while i < kids.len()
        invariant
            i <= kids@.len(),
            out@.len() == children_of(state@, kids@.take(i as int)).len(),
            forall|k: int|
                0 <= k < out@.len() ==> tells_entry(
                    #[trigger] out@[k],
                    children_of(state@, kids@.take(i as int))[k],
                ),
        decreases kids@.len() - i,
    {
        proof {
            assert(kids@.take(i + 1).drop_last() =~= kids@.take(i as int));
            assert(kids@.take(i + 1).last() == kids@[i as int]);
        }
        if let Some(x) = state.entries.get(&kids[i]) {
            let ghost had = out@;
            let ghost before = children_of(state@, kids@.take(i as int));
            out.push(
                DirEntry {
                    name: x.node.name.clone(),
                    is_dir: x.node.is_folder(),
                    size: node_size(&x.node),
                    modified: x.node.modification_time,
                    pinned: false,
                    cached: false,
                    uid: x.uid.to_text(),
                    path: String::new(),
                    role: String::new(),
                },
            );
            proof {
                let after = children_of(state@, kids@.take(i + 1));
                assert(after == before.push(*x));
                assert(forall|k: int| 0 <= k < had.len() ==> out@[k] == had[k]);
                assert(forall|k: int| 0 <= k < before.len() ==> after[k] == before[k]);
            }
        }
        i = i + 1;
    }
    assert(kids@.take(i as int) =~= kids@);
    out
}

/// Fill in what is kept on this machine of an entry. A folder is never cached as a
/// whole.
pub fn mark_kept(e: &mut DirEntry, pinned: bool, cached: bool)
    ensures
        *final(e) == (DirEntry { pinned, cached: cached && !old(e).is_dir, ..*old(e) }),
{
    e.pinned = pinned;
    e.cached = cached && !e.is_dir;
}

/// A file to be kept on this machine.
#[derive(Debug)]
pub struct PinnedFile {
    pub uid: NodeUid,
    pub name: String,
    pub mtime: i64,
    pub size: u64,
}

/// Whether `f` is the file of an entry.
pub open spec fn is_pinned_file(f: PinnedFile, x: Entry) -> bool {
    f.uid == x.uid && f.name == x.node.name && f.mtime == x.node.modification_time && f.size
        == x.node.kind.size()
}

/// The files of a folder, in order.
pub open spec fn files_in(t: Tree, kids: Seq<u64>) -> Seq<Entry>
    decreases kids.len(),
{
    if kids.len() == 0 {
        seq![]
    } else if t.entries.contains_key(kids.last()) && !(t.entries[kids.last()].node.kind is Folder) {
        files_in(t, kids.drop_last()).push(t.entries[kids.last()])
    } else {
        files_in(t, kids.drop_last())
    }
}

/// The folders of a folder, in order.
pub open spec fn folders_in(t: Tree, kids: Seq<u64>) -> Seq<u64>
    decreases kids.len(),
{
    if kids.len() == 0 {
        seq![]
    } else if t.entries.contains_key(kids.last()) && t.entries[kids.last()].node.kind is Folder {
        folders_in(t, kids.drop_last()).push(kids.last())
    } else {
        folders_in(t, kids.drop_last())
    }
}

/// The listing that a walk looks at: nothing where it is not resident.
pub open spec fn kids_of(t: Tree, ino: u64) -> Seq<u64> {
    if t.listings.contains_key(ino) {
        t.listings[ino]
    } else {
        seq![]
    }
}

/// One step of a walk over everything below a folder: the files of one folder are
/// added to `files`, and its folders to what is left to walk.
pub fn pin_subtree(state: &State, dir: u64, stack: &mut Vec<u64>, files: &mut Vec<PinnedFile>)
    ensures
        final(stack)@ == old(stack)@ + folders_in(state@, kids_of(state@, dir)),
        final(files)@.len() == old(files)@.len() + files_in(state@, kids_of(state@, dir)).len(),
        forall|i: int|
            0 <= i < old(files)@.len() ==> #[trigger] final(files)@[i] == old(files)@[i],
        forall|i: int|
            0 <= i < files_in(state@, kids_of(state@, dir)).len() ==> is_pinned_file(
                final(files)@[#[trigger] (old(files)@.len() + i)],
                files_in(state@, kids_of(state@, dir))[i],
            ),
{
    let ghost start = files@.len();
    let ghost walked = stack@;
    let kids = match state.children.get(&dir) {
        None => {
            assert(stack@ =~= walked + folders_in(state@, kids_of(state@, dir)));
            return ;
        },
        Some(k) => k,
    };
    assert(kids_of(state@, dir) == kids@);
    let mut i: usize = 0;
    assert(kids@.take(0) =~= Seq::<u64>::empty());
    assert(stack@ =~= walked + folders_in(state@, kids@.take(0)));
    while i < kids.len()
        invariant
            i <= kids@.len(),
            start == old(files)@.len(),
            walked == old(stack)@,
            stack@ == walked + folders_in(state@, kids@.take(i as int)),
            files@.len() == start + files_in(state@, kids@.take(i as int)).len(),
            forall|k: int| 0 <= k < start ==> #[trigger] files@[k] == old(files)@[k],
            forall|k: int|
                0 <= k < files_in(state@, kids@.take(i as int)).len() ==> is_pinned_file(
                    files@[#[trigger] (start + k)],
                    files_in(state@, kids@.take(i as int))[k],
                ),
        decreases kids@.len() - i,
    {
        proof {
            assert(kids@.take(i + 1).drop_last() =~= kids@.take(i as int));
            assert(kids@.take(i + 1).last() == kids@[i as int]);
        }
        if let Some(x) = state.entries.get(&kids[i]) {
            if x.node.is_folder() {
                stack.push(kids[i]);
                assert(stack@ =~= walked + folders_in(state@, kids@.take(i + 1)));
            } else {
                let ghost had = files@;
                let ghost before = files_in(state@, kids@.take(i as int));
                files.push(
                    PinnedFile {
                        uid: x.uid.clone(),
                        name: x.node.name.clone(),
                        mtime: x.node.modification_time,
                        size: node_size(&x.node),
                    },
                );
                proof {
                    let after = files_in(state@, kids@.take(i + 1));
                    assert(after == before.push(*x));
                    assert(forall|k: int| 0 <= k < had.len() ==> files@[k] == had[k]);
                    assert(forall|k: int| 0 <= k < before.len() ==> after[k] == before[k]);
                }
            }
        }
        i = i + 1;
    }
    assert(kids@.take(i as int) =~= kids@);
}

/// What pinning is about.
#[derive(Debug)]
pub struct PinTarget {
    pub name: String,
    pub is_folder: bool,
    pub mtime: i64,
    pub size: u64,
}

/// What pinning an inode is about, if it is still there.
pub fn pin(state: &State, ino: u64) -> (r: Result<PinTarget, CoreError>)
    ensures
        if state@.entries.contains_key(ino) {
            let n = state@.entries[ino].node;
            r matches Ok(t) && t == (PinTarget {
                name: n.name,
                is_folder: n.kind is Folder,
                mtime: n.modification_time,
                size: n.kind.size(),
            })
        } else {
            r matches Err(e) && e.reads(ErrorKind::NotFound, "node vanished"@)
        },
{
    match state.entries.get(&ino) {
        None => Err(CoreError::not_found("node vanished".to_owned())),
        Some(e) => Ok(
            PinTarget {
                name: e.node.name.clone(),
                is_folder: e.node.is_folder(),
                mtime: e.node.modification_time,
                size: node_size(&e.node),
            },
        ),
    }
}

/// What is told of a pinned folder.
pub fn pinned_folder(name: &str, files: u64) -> (r: String)
    ensures
        r@ == name@ + " ("@ + decimal(files as nat) + " files)"@,
{
    concat4(name, " (", decimal_text(files).as_str(), " files)")
}

/// What unpinning is about: the name, and whether everything below loses its copy too.
/// An inode that is gone has no name.
pub fn unpin(state: &State, ino: u64) -> (r: (String, bool))
    ensures
        if state@.entries.contains_key(ino) {
            r.0@ == state@.entries[ino].node.name@ && r.1
                == state@.entries[ino].node.kind is Folder
        } else {
            r.0@.len() == 0 && !r.1
        },
{
    match state.entries.get(&ino) {
        Some(e) => (e.node.name.clone(), e.node.is_folder()),
        None => (String::new(), false),
    }
}

/// The uids among the texts that can be read.
pub open spec fn readable(texts: Seq<String>) -> Seq<Uid>
    decreases texts.len(),
{
    if texts.len() == 0 {
        seq![]
    } else {
        let rest = readable(texts.drop_last());
        match uid_written(texts.last()@) {
            Some(u) => rest.push(u),
            None => rest,
        }
    }
}

/// The uids among the texts that can be read, in order; the others are left out.
pub fn readable_uids(texts: &Vec<String>) -> (r: Vec<NodeUid>)
    ensures
        crate::listing::uids(r@) == readable(texts@),
{
    let mut out: Vec<NodeUid> = Vec::new();
    let mut i: usize = 0;
    assert(texts@.take(0) =~= Seq::<String>::empty());
    assert(crate::listing::uids(out@) =~= Seq::<Uid>::empty());
    while i < texts.len()
        invariant
            i <= texts@.len(),
            crate::listing::uids(out@) == readable(texts@.take(i as int)),
        decreases texts@.len() - i,
    {
        assert(texts@.take(i + 1).drop_last() =~= texts@.take(i as int));
        assert(texts@.take(i + 1).last() == texts@[i as int]);
        let ghost had = crate::listing::uids(out@);
        if let Some(u) = parse_uid(texts[i].as_str()) {
            out.push(u);
            assert(crate::listing::uids(out@) =~= had.push(u@));
        }
        i = i + 1;
    }
    assert(texts@.take(i as int) =~= texts@);
    out
}

/// A file whose content is to be fetched.
#[derive(Debug)]
pub struct OpenTarget {
    pub name: String,
    pub mtime: i64,
    pub size: u64,
}

/// Whether `t` is the file to fetch for a node.
pub open spec fn opens(t: OpenTarget, n: Node) -> bool {
    t.name == n.name && t.mtime == n.modification_time && t.size == n.kind.size()
}

/// The file that opening a node is about: a folder cannot be opened.
pub fn open_node(node: &Node) -> (r: Result<OpenTarget, CoreError>)
    ensures
        if node.kind is Folder {
            r matches Err(e) && e.reads(ErrorKind::Invalid, "not a regular file"@)
        } else {
            r matches Ok(t) && opens(t, *node)
        },
{
    if node.is_folder() {
        return Err(CoreError::invalid("not a regular file".to_owned()));
    }
    Ok(
        OpenTarget {
            name: node.name.clone(),
            mtime: node.modification_time,
            size: node_size(node),
        },
    )
}

/// The file that opening an inode is about, if it is still there.
pub fn open_file(state: &State, ino: u64) -> (r: Result<OpenTarget, CoreError>)
    ensures
        if !state@.entries.contains_key(ino) {
            r matches Err(e) && e.reads(ErrorKind::NotFound, "node vanished"@)
        } else if state@.entries[ino].node.kind is Folder {
            r matches Err(e) && e.reads(ErrorKind::Invalid, "not a regular file"@)
        } else {
            r matches Ok(t) && opens(t, state@.entries[ino].node)
        },
{
    match state.entries.get(&ino) {
        None => Err(CoreError::not_found("node vanished".to_owned())),
        Some(e) => open_node(&e.node),
    }
}

/// The node that a uid names, for opening: a placeholder or the synthetic folder names
/// nothing that could be opened.
pub fn open_file_uid(raw_uid: &str) -> (r: Result<NodeUid, CoreError>)
    ensures
        match uid_written(raw_uid@) {
            Some(u) => if u.is_local() || u.is_virtual() {
                r matches Err(e) && e.reads(ErrorKind::Invalid, "invalid uid: "@ + raw_uid@)
            } else {
                r matches Ok(uid) && uid@ == u
            },
            None => r matches Err(e) && e.reads(ErrorKind::Invalid, "invalid uid: "@ + raw_uid@),
        },
{
    match parse_uid(raw_uid) {
        Some(uid) => {
            if is_local_uid(&uid) || is_virtual_uid(&uid) {
                return Err(CoreError::invalid(concat2("invalid uid: ", raw_uid)));
            }
            Ok(uid)
        },
        None => Err(CoreError::invalid(concat2("invalid uid: ", raw_uid))),
    }
}

/// Where the metadata of a node comes from when it is opened by its uid: the tree,
/// then the index, then the remote. A node that nobody knows is gone.
pub fn open_source(live: Option<Node>, indexed: Option<Node>, remote: Option<Node>) -> (r: Result<
    Node,
    CoreError,
>)
    ensures
        match (live, indexed, remote) {
            (Some(n), _, _) => r == Ok::<Node, CoreError>(n),
            (None, Some(n), _) => r == Ok::<Node, CoreError>(n),
            (None, None, Some(n)) => r == Ok::<Node, CoreError>(n),
            (None, None, None) => r matches Err(e) && e.reads(
                ErrorKind::NotFound,
                "node vanished"@,
            ),
        },
{
    match live {
        Some(n) => Ok(n),
        None => match indexed {
            Some(n) => Ok(n),
            None => match remote {
                Some(n) => Ok(n),
                None => Err(CoreError::not_found("node vanished".to_owned())),
            },
        },
    }
}

/// What a folder shows are its resident children, in the order of its listing; where the
/// listing is not resident it shows nothing.
pub proof fn law_folders_show_their_children(t: Tree, ino: u64)
    ensures
        !t.listings.contains_key(ino) ==> folder_listing(t, ino).len() == 0,
        t.listings.contains_key(ino) ==> folder_listing(t, ino) == t.listings[ino].filter(
            |k: u64| t.entries.contains_key(k),
        ).map_values(|k: u64| t.entries[k]),
{
    if t.listings.contains_key(ino) {
        lemma_children(t, t.listings[ino]);
    }
}

proof fn lemma_children(t: Tree, kids: Seq<u64>)
    ensures
        children_of(t, kids) == kids.filter(|k: u64| t.entries.contains_key(k)).map_values(
            |k: u64| t.entries[k],
        ),
    decreases kids.len(),
{
    reveal(Seq::filter);
    if kids.len() > 0 {
        lemma_children(t, kids.drop_last());
    }
    assert(children_of(t, kids) =~= kids.filter(
        |k: u64| t.entries.contains_key(k),
    ).map_values(|k: u64| t.entries[k]));
}

/// Pinning a folder takes each resident file in it, and goes on with each resident folder:
/// together they are all its resident children.
pub proof fn law_pinning_reaches_everything(t: Tree, kids: Seq<u64>)
    ensures
        files_in(t, kids) == kids.filter(
            |k: u64| t.entries.contains_key(k) && !(t.entries[k].node.kind is Folder),
        ).map_values(|k: u64| t.entries[k]),
        folders_in(t, kids) == kids.filter(
            |k: u64| t.entries.contains_key(k) && t.entries[k].node.kind is Folder,
        ),
        files_in(t, kids).len() + folders_in(t, kids).len() == children_of(t, kids).len(),
    decreases kids.len(),
{
    reveal(Seq::filter);
    if kids.len() > 0 {
        law_pinning_reaches_everything(t, kids.drop_last());
    }
    assert(files_in(t, kids) =~= kids.filter(
        |k: u64| t.entries.contains_key(k) && !(t.entries[k].node.kind is Folder),
    ).map_values(|k: u64| t.entries[k]));
}

/// Of uids as they were written those are taken that can be read, in their order.
pub proof fn law_readable_uids_are_taken(texts: Seq<String>)
    ensures
        readable(texts) == texts.filter(|s: String| uid_written(s@) is Some).map_values(
            |s: String| uid_written(s@)->0,
        ),
    decreases texts.len(),
{
    reveal(Seq::filter);
    if texts.len() > 0 {
        law_readable_uids_are_taken(texts.drop_last());
    }
    assert(readable(texts) =~= texts.filter(|s: String| uid_written(s@) is Some).map_values(
        |s: String| uid_written(s@)->0,
    ));
}

/// What a folder tells of a child is what its node says, and no more.
pub proof fn law_entries_tell_the_node(e: DirEntry, f: PinnedFile, o: OpenTarget, x: Entry)
    requires
        tells_entry(e, x),
        is_pinned_file(f, x),
        opens(o, x.node),
    ensures
        e.name == x.node.name && f.name == e.name && o.name == e.name,
        e.size == x.node.kind.size() && f.size == e.size && o.size == e.size,
        e.modified == x.node.modification_time && f.mtime == e.modified && o.mtime == e.modified,
        e.uid@ == x.uid@.text() && f.uid@ == x.uid@,
        e.is_dir <==> x.node.kind is Folder,
        !e.pinned && !e.cached && e.path@.len() == 0 && e.role@.len() == 0,
{
}

} // verus!

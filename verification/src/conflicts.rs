//! Conflict copies: listing them, and resolving one as the user chooses.
//!
//! Whatever the choice, what is given up goes to the trash, and only once neither
//! file is being written or uploaded.

use crate::error::{CoreError, ErrorKind};
use crate::lists::last_where;
use crate::node::{node_content_sha1, node_size, Node, NodeKind};
use crate::ops::opt_view;
use crate::paths::{sibling, sibling_path};
use crate::sorting::{
    law_stable_sort_sorts, law_text_order_is_irreflexive, lemma_sort_has, lemma_text_chain,
    sort_stable, stable_sort, strict_weak, text_less, text_lt,
};
use crate::text::{concat2, concat3, same_text, trim, trimmed};
use crate::uid::{is_own_or_virtual_uid, same_opt_uid, NodeUid, Uid};
use vstd::prelude::*;

verus! {

/// A stored node, the name it would be a copy of, and its path in the drive.
#[derive(Debug)]
pub struct ConflictRow {
    pub node: Node,
    pub base: Option<String>,
    pub path: Option<String>,
}

/// A conflict copy as a front-end is told of it.
#[derive(Debug)]
pub struct ConflictInfo {
    pub original_path: String,
    pub original_exists: bool,
    pub size: u64,
    pub modified: i64,
    pub original_size: Option<u64>,
    pub original_modified: Option<i64>,
    pub identical: bool,
    pub path: String,
}

/// Whether a node can be a copy or an original: a file of the account's own that is
/// not in the trash.
pub open spec fn eligible(row: ConflictRow, own_volume: Seq<char>) -> bool {
    !row.node.trashed && !(row.node.kind is Folder) && (row.node.uid@.volume == own_volume
        || row.node.uid@.is_virtual())
}

/// The folder of a node, as an identity.
pub open spec fn folder_of(node: Node) -> Option<Uid> {
    match node.parent_uid {
        Some(p) => Some(p@),
        None => None,
    }
}

/// The file that a copy is a copy of: the last one of that name in its folder.
pub open spec fn original_of(
    rows: Seq<ConflictRow>,
    own_volume: Seq<char>,
    folder: Option<Uid>,
    base: Seq<char>,
) -> Option<ConflictRow> {
    last_where(rows, is_original(own_volume, folder, base))
}

/// Whether a row is the file of a name in a folder.
pub open spec fn is_original(
    own_volume: Seq<char>,
    folder: Option<Uid>,
    base: Seq<char>,
) -> spec_fn(ConflictRow) -> bool {
    |r: ConflictRow|
        eligible(r, own_volume) && folder_of(r.node) == folder && r.node.name@ == base
}

/// The fingerprint of a file's content.
pub open spec fn sha_of(node: Node) -> Option<Seq<char>> {
    match node.kind {
        NodeKind::Folder => None,
        NodeKind::File { content_sha1, .. } => opt_view(content_sha1),
    }
}

/// Whether two files are known to hold the same bytes.
pub open spec fn same_content(a: Node, b: Node) -> bool {
    a.kind.size() == b.kind.size() && sha_of(b) is Some && sha_of(a) == sha_of(b)
}

/// Whether a row is a conflict copy that is listed.
pub open spec fn is_copy(row: ConflictRow, own_volume: Seq<char>) -> bool {
    eligible(row, own_volume) && row.base is Some && row.path is Some
}

/// Whether `info` tells of the copy `row`.
pub open spec fn tells_conflict(
    info: ConflictInfo,
    row: ConflictRow,
    rows: Seq<ConflictRow>,
    own_volume: Seq<char>,
) -> bool {
    let original = original_of(rows, own_volume, folder_of(row.node), (row.base->0)@);
    &&& info.path@ == (row.path->0)@
    &&& info.original_path@ == sibling((row.path->0)@, (row.base->0)@)
    &&& info.size == row.node.kind.size()
    &&& info.modified == row.node.modification_time
    &&& info.original_exists == (original is Some)
    &&& match original {
        None => info.original_size is None && info.original_modified is None && !info.identical,
        Some(o) => {
            &&& info.original_size == Some(o.node.kind.size())
            &&& info.original_modified == Some(o.node.modification_time)
            &&& info.identical == same_content(o.node, row.node)
        },
    }
}

fn is_eligible(row: &ConflictRow, own_volume: &str) -> (r: bool)
    ensures
        r == eligible(*row, own_volume@),
{
    !row.node.trashed && !row.node.is_folder() && is_own_or_virtual_uid(&row.node.uid, own_volume)
}

fn find_original<'a>(
    rows: &'a Vec<ConflictRow>,
    own_volume: &str,
    folder: &Option<NodeUid>,
    base: &str,
    Ghost(copy): Ghost<Node>,
) -> (r: Option<&'a ConflictRow>)
    requires
        copy.parent_uid == *folder,
    ensures
        match r {
            Some(o) => original_of(rows@, own_volume@, folder_of(copy), base@) == Some(*o),
            None => original_of(rows@, own_volume@, folder_of(copy), base@) is None,
        },
{
    let ghost p = is_original(own_volume@, folder_of(copy), base@);
    let mut i: usize = rows.len();
    assert(rows@.take(i as int) =~= rows@);
    while i > 0
        invariant
            i <= rows@.len(),
            copy.parent_uid == *folder,
            p == is_original(own_volume@, folder_of(copy), base@),
            last_where(rows@, p) == last_where(rows@.take(i as int), p),
        decreases i,
    {
        let row = &rows[i - 1];
        assert(rows@.take(i as int).last() == *row);
        assert(rows@.take(i as int).drop_last() =~= rows@.take(i - 1));
        if is_eligible(row, own_volume) && same_opt_uid(&row.node.parent_uid, folder) && same_text(
            row.node.name.as_str(),
            base,
        ) {
            return Some(row);
        }
        i = i - 1;
    }
    None
}

fn same_bytes(a: &Node, b: &Node) -> (r: bool)
    ensures
        r == same_content(*a, *b),
{
    if node_size(a) != node_size(b) {
        return false;
    }
    match (node_content_sha1(a), node_content_sha1(b)) {
        (Some(x), Some(y)) => same_text(x.as_str(), y.as_str()),
        _ => false,
    }
}

/// The copies among the rows, in order.
pub open spec fn copies_in(rows: Seq<ConflictRow>, own_volume: Seq<char>) -> Seq<ConflictRow>
    decreases rows.len(),
{
    if rows.len() == 0 {
        seq![]
    } else if is_copy(rows.last(), own_volume) {
        copies_in(rows.drop_last(), own_volume).push(rows.last())
    } else {
        copies_in(rows.drop_last(), own_volume)
    }
}

/// The order of copies: by path.
pub open spec fn path_before() -> spec_fn(ConflictInfo, ConflictInfo) -> bool {
    |a: ConflictInfo, b: ConflictInfo| text_lt(a.path@, b.path@)
}

/// Whether `items` tell of the copies among the rows, in their order.
pub open spec fn tells_all(
    items: Seq<ConflictInfo>,
    rows: Seq<ConflictRow>,
    own_volume: Seq<char>,
) -> bool {
    let copies = copies_in(rows, own_volume);
    &&& items.len() == copies.len()
    &&& forall|i: int|
        0 <= i < items.len() ==> tells_conflict(#[trigger] items[i], copies[i], rows, own_volume)
}

/// Every conflict copy, with the file it is a copy of, by path.
pub fn list_conflicts(rows: &Vec<ConflictRow>, own_volume: &str) -> (r: Vec<ConflictInfo>)
    ensures
        exists|items: Seq<ConflictInfo>| #[trigger]
            tells_all(items, rows@, own_volume@) && r@ == stable_sort(items, path_before()),
        // By path, and every copy once.
        r@.len() == copies_in(rows@, own_volume@).len(),
        forall|i: int, j: int|
            0 <= i < j < r@.len() ==> !text_lt((#[trigger] r@[j]).path@, (#[trigger] r@[i]).path@),
        forall|k: int|
            0 <= k < rows@.len() && !(#[trigger] rows@[k]).node.trashed && rows@[k].node.kind
                is File && rows@[k].node.uid@.volume == own_volume@ && rows@[k].base is Some
                && rows@[k].path is Some ==> exists|i: int|
                0 <= i < r@.len() && (#[trigger] r@[i]).path@ == (rows@[k].path->0)@ && r@[i].size
                    == rows@[k].node.kind.size(),
{
    let mut items: Vec<ConflictInfo> = Vec::new();
    let mut i: usize = 0;
    assert(rows@.take(0) =~= Seq::<ConflictRow>::empty());
    while i < rows.len()
        invariant
            i <= rows@.len(),
            items@.len() == copies_in(rows@.take(i as int), own_volume@).len(),
            forall|k: int|
                0 <= k < items@.len() ==> tells_conflict(
                    #[trigger] items@[k],
                    copies_in(rows@.take(i as int), own_volume@)[k],
                    rows@,
                    own_volume@,
                ),
        decreases rows@.len() - i,
    {
        let row = &rows[i];
        let ghost had = items@;
        let ghost before = copies_in(rows@.take(i as int), own_volume@);
        proof {
            assert(rows@.take(i + 1).drop_last() =~= rows@.take(i as int));
            assert(rows@.take(i + 1).last() == *row);
        }
        if is_eligible(row, own_volume) {
            if let (Some(base), Some(path)) = (&row.base, &row.path) {
                let original = find_original(
                    rows,
                    own_volume,
                    &row.node.parent_uid,
                    base.as_str(),
                    Ghost(row.node),
                );
                let info = match original {
                    None => ConflictInfo {
                        original_path: sibling_path(path.as_str(), base.as_str()),
                        original_exists: false,
                        size: node_size(&row.node),
                        modified: row.node.modification_time,
                        original_size: None,
                        original_modified: None,
                        identical: false,
                        path: path.clone(),
                    },
                    Some(o) => ConflictInfo {
                        original_path: sibling_path(path.as_str(), base.as_str()),
                        original_exists: true,
                        size: node_size(&row.node),
                        modified: row.node.modification_time,
                        original_size: Some(node_size(&o.node)),
                        original_modified: Some(o.node.modification_time),
                        identical: same_bytes(&o.node, &row.node),
                        path: path.clone(),
                    },
                };
                assert(tells_conflict(info, *row, rows@, own_volume@));
                items.push(info);
                proof {
                    let after = copies_in(rows@.take(i + 1), own_volume@);
                    assert(after == before.push(*row));
                    assert(forall|k: int| 0 <= k < had.len() ==> items@[k] == had[k]);
                    assert(forall|k: int| 0 <= k < before.len() ==> after[k] == before[k]);
                }
            }
        }
        i = i + 1;
    }
    assert(rows@.take(i as int) =~= rows@);
    let less = |a: &ConflictInfo, b: &ConflictInfo| -> (x: bool)
        ensures
            x == text_lt(a.path@, b.path@),
        { text_less(a.path.as_str(), b.path.as_str()) };
    assert(tells_all(items@, rows@, own_volume@));
    proof {
        lemma_listed_by_path(items@, rows@, own_volume@);
    }
    sort_stable(items, less, Ghost(path_before()))
}

/// Which file the user keeps.
#[derive(Debug)]
pub enum ConflictKeep {
    Original,
    Copy,
    /// Both, the copy under another name.
    Both { name: String },
}

/// A step of resolving a conflict.
#[derive(Debug, Clone, Copy, PartialEq, Eq, Structural)]
pub enum ResolveStep {
    /// Make sure that nobody is writing or uploading the copy.
    SettleCopy,
    SettleOriginal,
    TrashCopy,
    TrashOriginal,
    /// Give the copy the name of the original.
    RenameToBase,
    /// Check the name that the user chose, and give it to the copy.
    RenameToChoice,
}

/// The steps of a resolution, in order; each must work for the next to be taken.
pub open spec fn resolve_order(keep: ConflictKeep) -> Seq<ResolveStep> {
    match keep {
        ConflictKeep::Original => seq![ResolveStep::SettleCopy, ResolveStep::TrashCopy],
        ConflictKeep::Copy => seq![
            ResolveStep::SettleCopy,
            ResolveStep::SettleOriginal,
            ResolveStep::TrashOriginal,
            ResolveStep::RenameToBase,
        ],
        ConflictKeep::Both { .. } => seq![ResolveStep::SettleCopy, ResolveStep::RenameToChoice],
    }
}

/// The steps of a resolution, in order. A path without a name, or one that is no
/// conflict copy, is refused. `base` is the name that the copy is a copy of.
pub fn resolve_conflict(
    copy_name: &Option<String>,
    base: &Option<String>,
    keep: &ConflictKeep,
) -> (r: Result<Vec<ResolveStep>, CoreError>)
    ensures
        match r {
            Ok(steps) => {
                &&& *copy_name is Some && *base is Some && steps@ == resolve_order(*keep)
                &&& steps@.contains(ResolveStep::TrashCopy) <==> *keep is Original
                &&& steps@.contains(ResolveStep::TrashOriginal) <==> *keep is Copy
                &&& steps@.contains(ResolveStep::RenameToBase) <==> *keep is Copy
                &&& steps@.contains(ResolveStep::RenameToChoice) <==> *keep is Both
                &&& steps@.contains(ResolveStep::SettleOriginal) <==> *keep is Copy
                &&& steps@.len() > 0 && steps@[0] == ResolveStep::SettleCopy
            },
            Err(e) => if *copy_name is None {
                e.reads(ErrorKind::Invalid, "the conflict copy has no file name"@)
            } else {
                *base is None && e.reads(
                    ErrorKind::Invalid,
                    (copy_name->0)@ + " is not a conflict copy"@,
                )
            },
        },
{
    let name = match copy_name {
        None => {
            return Err(CoreError::invalid("the conflict copy has no file name".to_owned()));
        },
        Some(n) => n,
    };
    if base.is_none() {
        return Err(CoreError::invalid(concat2(name.as_str(), " is not a conflict copy")));
    }
    let steps: Vec<ResolveStep> = match keep {
        ConflictKeep::Original => vec![ResolveStep::SettleCopy, ResolveStep::TrashCopy],
        ConflictKeep::Copy => vec![
            ResolveStep::SettleCopy,
            ResolveStep::SettleOriginal,
            ResolveStep::TrashOriginal,
            ResolveStep::RenameToBase,
        ],
        ConflictKeep::Both { .. } => vec![ResolveStep::SettleCopy, ResolveStep::RenameToChoice],
    };
    assert(steps@ =~= resolve_order(*keep));
    proof {
        law_resolution_trashes_what_is_given_up(*keep);
    }
    Ok(steps)
}

/// The name that the user chose for the copy, without white space at its ends. One
/// that the original or the copy has is refused.
pub fn chosen_name(name: &str, base: &str, copy_name: &str) -> (r: Result<String, CoreError>)
    ensures
        match r {
            Ok(n) => n@ == trim(name@) && n@ != base@ && n@ != copy_name@,
            Err(e) => (trim(name@) == base@ || trim(name@) == copy_name@) && e.reads(
                ErrorKind::Invalid,
                "choose a name that no other file has"@,
            ),
        },
{
    let n = trimmed(name);
    if same_text(n.as_str(), base) || same_text(n.as_str(), copy_name) {
        return Err(CoreError::invalid("choose a name that no other file has".to_owned()));
    }
    Ok(n)
}

/// What the user is told of a resolution, and what the log says of it: the line, the
/// subject and the detail. `chosen` is the name that the user chose.
pub fn resolved_lines(keep: &ConflictKeep, copy_name: &str, base: &str, chosen: &str) -> (r: (
    String,
    String,
    String,
))
    ensures
        match *keep {
            ConflictKeep::Original => {
                &&& r.0@ == "kept "@ + base@ + "; the copy is in Trash"@
                &&& r.1@ == copy_name@
                &&& r.2@ == "kept "@ + base@
            },
            ConflictKeep::Copy => {
                &&& r.0@ == "kept the copy as "@ + base@ + "; the previous version is in Trash"@
                &&& r.1@ == base@
                &&& r.2@ == "kept the conflict copy "@ + copy_name@
            },
            ConflictKeep::Both { .. } => {
                &&& r.0@ == "kept both; the copy is now "@ + chosen@
                &&& r.1@ == chosen@
                &&& r.2@ == "was "@ + copy_name@
            },
        },
{
    match keep {
        ConflictKeep::Original => (
            concat3("kept ", base, "; the copy is in Trash"),
            copy_name.to_owned(),
            concat2("kept ", base),
        ),
        ConflictKeep::Copy => (
            concat3("kept the copy as ", base, "; the previous version is in Trash"),
            base.to_owned(),
            concat2("kept the conflict copy ", copy_name),
        ),
        ConflictKeep::Both { .. } => (
            concat2("kept both; the copy is now ", chosen),
            chosen.to_owned(),
            concat2("was ", copy_name),
        ),
    }
}

/// What is added to the error where the original is in the trash, and the copy could
/// not take its name.
pub fn half_resolved(base: &str) -> (r: String)
    ensures
        r@ == base@ + " was moved to Trash, but the copy kept its conflict name"@,
{
    concat2(base, " was moved to Trash, but the copy kept its conflict name")
}

/// Refuse to decide about a file that is about to change. `queued` is whether
/// something is queued for it; an answer that cannot be had counts as yes.
pub fn require_settled(queued: Result<bool, ()>, busy: bool, shown: &str) -> (r: Result<
    (),
    CoreError,
>)
    ensures
        queued == Ok::<bool, ()>(false) && !busy ==> r is Ok,
        !(queued == Ok::<bool, ()>(false) && !busy) ==> (r matches Err(e) && e.reads(
            ErrorKind::Conflict,
            shown@ + " is still being written or uploaded; try again once it has synced"@,
        )),
{
    let owed = match queued {
        Ok(b) => b,
        Err(_) => true,
    };
    if owed || busy {
        return Err(
            CoreError::conflict(
                concat2(
                    shown,
                    " is still being written or uploaded; try again once it has synced",
                ),
            ),
        );
    }
    Ok(())
}

/// Nothing is trashed or renamed before the copy was found settled, and the original
/// is trashed only once it was found settled as well. Nothing is deleted for good.
pub proof fn law_resolution_waits_for_settled_files(keep: ConflictKeep, i: int)
    requires
        0 <= i < resolve_order(keep).len(),
    ensures
        resolve_order(keep)[0] == ResolveStep::SettleCopy,
        resolve_order(keep)[i] == ResolveStep::TrashOriginal ==> exists|j: int|
            0 <= j < i && #[trigger] resolve_order(keep)[j] == ResolveStep::SettleOriginal,
        resolve_order(keep)[i] == ResolveStep::RenameToBase ==> exists|j: int|
            0 <= j < i && #[trigger] resolve_order(keep)[j] == ResolveStep::TrashOriginal,
{
    if keep is Copy {
        assert(resolve_order(keep)[1] == ResolveStep::SettleOriginal);
        assert(resolve_order(keep)[2] == ResolveStep::TrashOriginal);
    }
}

/// What is trashed is what the user gave up, and nothing else: the copy where the original
/// is kept, the original where the copy is, and nothing where both are. The copy takes the
/// name of the original just where it takes its place, and a name of its own just where
/// both stay. The original is waited for just where it is trashed, after the copy.
pub proof fn law_resolution_trashes_what_is_given_up(keep: ConflictKeep)
    ensures
        resolve_order(keep).contains(ResolveStep::TrashCopy) <==> keep is Original,
        resolve_order(keep).contains(ResolveStep::TrashOriginal) <==> keep is Copy,
        resolve_order(keep).contains(ResolveStep::RenameToBase) <==> keep is Copy,
        resolve_order(keep).contains(ResolveStep::RenameToChoice) <==> keep is Both,
        resolve_order(keep).contains(ResolveStep::SettleOriginal) <==> keep is Copy,
        resolve_order(keep).len() > 0,
        resolve_order(keep)[0] == ResolveStep::SettleCopy,
        resolve_order(keep).no_duplicates(),
{
    let steps = resolve_order(keep);
    match keep {
        ConflictKeep::Original => {
            assert(steps[1] == ResolveStep::TrashCopy);
        },
        ConflictKeep::Copy => {
            assert(steps[1] == ResolveStep::SettleOriginal);
            assert(steps[2] == ResolveStep::TrashOriginal);
            assert(steps[3] == ResolveStep::RenameToBase);
        },
        ConflictKeep::Both { .. } => {
            assert(steps[1] == ResolveStep::RenameToChoice);
        },
    }
}

/// Which of the two files is there and under which name, while a resolution runs.
pub ghost struct Kept {
    pub original: bool,
    pub copy: bool,
    pub copy_is_base: bool,
    pub copy_is_chosen: bool,
    pub settled_copy: bool,
    pub settled_original: bool,
}

/// What one step that worked leaves.
pub open spec fn stepped(k: Kept, step: ResolveStep) -> Kept {
    match step {
        ResolveStep::SettleCopy => Kept { settled_copy: true, ..k },
        ResolveStep::SettleOriginal => Kept { settled_original: true, ..k },
        ResolveStep::TrashCopy => Kept { copy: false, ..k },
        ResolveStep::TrashOriginal => Kept { original: false, ..k },
        ResolveStep::RenameToBase => Kept { copy_is_base: true, copy_is_chosen: false, ..k },
        ResolveStep::RenameToChoice => Kept { copy_is_chosen: true, copy_is_base: false, ..k },
    }
}

/// What steps that all worked leave.
pub open spec fn stepped_all(k: Kept, steps: Seq<ResolveStep>) -> Kept
    decreases steps.len(),
{
    if steps.len() == 0 {
        k
    } else {
        stepped(stepped_all(k, steps.drop_last()), steps.last())
    }
}

/// After a resolution that worked, what the user kept is there and what they gave up is
/// not; one file has the name of the original; and wherever it stopped, at least one of
/// the two files is there, and never two of one name.
pub proof fn law_resolution_keeps_what_was_chosen(keep: ConflictKeep, taken: int)
    requires
        0 <= taken <= resolve_order(keep).len(),
    ensures
        ({
            let start = Kept {
                original: true,
                copy: true,
                copy_is_base: false,
                copy_is_chosen: false,
                settled_copy: false,
                settled_original: false,
            };
            let at = stepped_all(start, resolve_order(keep).take(taken));
            &&& at.original || at.copy
            &&& !(at.original && at.copy_is_base)
            &&& !at.copy || at.copy_is_base || at.copy_is_chosen ==> at.settled_copy
            &&& !at.original ==> at.settled_original && at.settled_copy
            &&& taken == resolve_order(keep).len() ==> match keep {
                ConflictKeep::Original => at.original && !at.copy,
                ConflictKeep::Copy => !at.original && at.copy && at.copy_is_base,
                ConflictKeep::Both { .. } => at.original && at.copy && at.copy_is_chosen,
            }
        }),
{
    let start = Kept {
        original: true,
        copy: true,
        copy_is_base: false,
        copy_is_chosen: false,
        settled_copy: false,
        settled_original: false,
    };
    let steps = resolve_order(keep);
    assert(steps.take(0) =~= seq![]);
    assert(steps.take(1).drop_last() =~= steps.take(0));
    assert(steps.take(2).drop_last() =~= steps.take(1));
    if keep is Copy {
        assert(steps.take(3).drop_last() =~= steps.take(2));
        assert(steps.take(4).drop_last() =~= steps.take(3));
        assert(stepped_all(start, steps.take(0)) == start);
        assert(stepped_all(start, steps.take(1)) == stepped(start, steps[0]));
        assert(stepped_all(start, steps.take(2)) == stepped(stepped(start, steps[0]), steps[1]));
        assert(stepped_all(start, steps.take(3)) == stepped(
            stepped(stepped(start, steps[0]), steps[1]),
            steps[2],
        ));
        assert(stepped_all(start, steps.take(4)) == stepped(
            stepped(stepped(stepped(start, steps[0]), steps[1]), steps[2]),
            steps[3],
        ));
    } else {
        assert(stepped_all(start, steps.take(0)) == start);
        assert(stepped_all(start, steps.take(1)) == stepped(start, steps[0]));
        assert(stepped_all(start, steps.take(2)) == stepped(stepped(start, steps[0]), steps[1]));
    }
    assert(taken == 0 || taken == 1 || taken == 2 || taken == 3 || taken == 4);
}

/// Only a file of the account's own that is not in the trash can be a copy or an original.
pub proof fn law_copies_are_own_files(row: ConflictRow, own_volume: Seq<char>)
    ensures
        eligible(row, own_volume) ==> !row.node.trashed && row.node.kind is File && (
        row.node.uid@.volume == own_volume || row.node.uid@.is_virtual()),
        row.node.trashed || row.node.kind is Folder ==> !eligible(row, own_volume),
        !row.node.trashed && row.node.kind is File && row.node.uid@.volume == own_volume
            ==> eligible(row, own_volume),
{
}

/// Two files are told to be identical only if they are as long as each other and both have
/// the same fingerprint; a file without one is never told to be.
pub proof fn law_identical_files_have_one_fingerprint(a: Node, b: Node)
    ensures
        same_content(a, b) ==> a.kind is File && b.kind is File && a.kind.size() == b.kind.size()
            && a.kind->content_sha1 is Some && b.kind->content_sha1 is Some && (
        a.kind->content_sha1->0)@ == (b.kind->content_sha1->0)@,
        same_content(a, b) == same_content(b, a),
        a.kind is File && a.kind->content_sha1 is Some ==> same_content(a, a),
{
}

/// The original of a copy is a file of the name that the copy is of, in the same folder.
pub proof fn law_originals_are_in_the_folder(
    rows: Seq<ConflictRow>,
    own_volume: Seq<char>,
    folder: Option<Uid>,
    base: Seq<char>,
)
    ensures
        match original_of(rows, own_volume, folder, base) {
            Some(o) => rows.contains(o) && eligible(o, own_volume) && folder_of(o.node) == folder
                && o.node.name@ == base,
            None => forall|i: int|
                0 <= i < rows.len() ==> !(eligible(#[trigger] rows[i], own_volume) && folder_of(
                    rows[i].node,
                ) == folder && rows[i].node.name@ == base),
        },
{
    let p = is_original(own_volume, folder, base);
    crate::lists::law_last_where(rows, p);
    match original_of(rows, own_volume, folder, base) {
        Some(o) => {
            let i = choose|i: int| 0 <= i < rows.len() && #[trigger] rows[i] == o && p(o);
            assert(rows[i] == o);
        },
        None => {
            assert forall|i: int| 0 <= i < rows.len() implies !(eligible(
                #[trigger] rows[i],
                own_volume,
            ) && folder_of(rows[i].node) == folder && rows[i].node.name@ == base) by {
                assert(!p(rows[i]));
            }
        },
    }
}

/// The copies are those rows that are eligible and have both a name they are of and a path,
/// in order.
pub proof fn law_copies_are_the_named_rows(rows: Seq<ConflictRow>, own_volume: Seq<char>)
    ensures
        copies_in(rows, own_volume) == rows.filter(
            |r: ConflictRow| eligible(r, own_volume) && r.base is Some && r.path is Some,
        ),
    decreases rows.len(),
{
    reveal(Seq::filter);
    if rows.len() > 0 {
        law_copies_are_the_named_rows(rows.drop_last(), own_volume);
    }
}

/// What is told of a copy is what its row says; its original is told of just where there is
/// one, and told to be identical only there.
pub proof fn law_copies_are_told_as_they_are(
    info: ConflictInfo,
    row: ConflictRow,
    rows: Seq<ConflictRow>,
    own_volume: Seq<char>,
)
    requires
        row.path is Some,
        row.base is Some,
        tells_conflict(info, row, rows, own_volume),
    ensures
        info.path@ == (row.path->0)@,
        info.size == row.node.kind.size() && info.modified == row.node.modification_time,
        info.original_exists <==> original_of(
            rows,
            own_volume,
            folder_of(row.node),
            (row.base->0)@,
        ) is Some,
        info.original_exists <==> info.original_size is Some,
        info.original_exists <==> info.original_modified is Some,
        info.identical ==> info.original_exists && info.original_size == Some(info.size),
        (row.base->0)@.is_suffix_of(info.original_path@),
{
}

pub(crate) proof fn lemma_listed_by_path(
    items: Seq<ConflictInfo>,
    rows: Seq<ConflictRow>,
    own_volume: Seq<char>,
)
    requires
        tells_all(items, rows, own_volume),
    ensures
        ({
            let r = stable_sort(items, path_before());
            &&& r.len() == copies_in(rows, own_volume).len()
            &&& forall|i: int, j: int|
                0 <= i < j < r.len() ==> !text_lt(
                    (#[trigger] r[j]).path@,
                    (#[trigger] r[i]).path@,
                )
            &&& forall|k: int|
                0 <= k < rows.len() && !(#[trigger] rows[k]).node.trashed && rows[k].node.kind
                    is File && rows[k].node.uid@.volume == own_volume && rows[k].base is Some
                    && rows[k].path is Some ==> exists|i: int|
                    0 <= i < r.len() && (#[trigger] r[i]).path@ == (rows[k].path->0)@ && r[i].size
                        == rows[k].node.kind.size()
        }),
{
    let lt = path_before();
    let r = stable_sort(items, lt);
    let copies = copies_in(rows, own_volume);
    assert(strict_weak(lt)) by {
        assert forall|a: ConflictInfo| !#[trigger] lt(a, a) by {
            law_text_order_is_irreflexive(a.path@);
        }
        assert forall|a: ConflictInfo, b: ConflictInfo, c: ConflictInfo| #[trigger]
            lt(a, b) && #[trigger] lt(b, c) implies lt(a, c) by {
            lemma_text_chain(a.path@, b.path@, c.path@);
        }
        assert forall|a: ConflictInfo, b: ConflictInfo, c: ConflictInfo|
            #![trigger lt(a, b), lt(b, c)]
            !lt(a, b) && !lt(b, c) implies !lt(a, c) by {
            lemma_text_chain(a.path@, b.path@, c.path@);
        }
    }
    law_stable_sort_sorts(items, lt);
    lemma_sort_has(items, lt);
    assert forall|i: int, j: int| 0 <= i < j < r.len() implies !text_lt(
        (#[trigger] r[j]).path@,
        (#[trigger] r[i]).path@,
    ) by {
        assert(!lt(r[j], r[i]));
    }
    assert forall|k: int|
        0 <= k < rows.len() && !(#[trigger] rows[k]).node.trashed && rows[k].node.kind is File
            && rows[k].node.uid@.volume == own_volume && rows[k].base is Some && rows[k].path
            is Some implies exists|i: int|
        0 <= i < r.len() && (#[trigger] r[i]).path@ == (rows[k].path->0)@ && r[i].size
            == rows[k].node.kind.size() by {
        lemma_copy_is_in(rows, own_volume, k);
        let m = choose|m: int| 0 <= m < copies.len() && copies[m] == rows[k];
        assert(tells_conflict(items[m], copies[m], rows, own_volume));
        assert(r.contains(items[m]));
        let i = choose|i: int| 0 <= i < r.len() && r[i] == items[m];
        assert(r[i].path@ == (rows[k].path->0)@);
    }
}

proof fn lemma_copy_is_in(rows: Seq<ConflictRow>, own_volume: Seq<char>, k: int)
    requires
        0 <= k < rows.len(),
        is_copy(rows[k], own_volume),
    ensures
        copies_in(rows, own_volume).contains(rows[k]),
    decreases rows.len(),
{
    let rest = rows.drop_last();
    let now = copies_in(rows, own_volume);
    if k < rest.len() {
        assert(rest[k] == rows[k]);
        lemma_copy_is_in(rest, own_volume, k);
        let had = copies_in(rest, own_volume);
        let m = choose|m: int| 0 <= m < had.len() && had[m] == rows[k];
        assert(now[m] == rows[k]);
    } else {
        assert(now[now.len() - 1] == rows[k]);
    }
}

} // verus!

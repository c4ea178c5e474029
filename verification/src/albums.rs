//! Photo albums: their listing, and what is in one.

use crate::access::{lowercase, to_lowercase};
use crate::lists::last_where;
use crate::node::{Node, NodeKind};
use crate::ops::opt_view;
use crate::recovery::{among, is_among};
use crate::sorting::{
    law_stable_sort_sorts, law_text_order_is_irreflexive, lemma_sort_has, lemma_text_chain,
    sort_stable, stable_sort, strict_weak, text_less, text_lt,
};
use crate::text::{copy_opt_text, same_text};
use crate::uid::{parse_uid, uid_written, NodeUid, Uid};
use vstd::prelude::*;

verus! {

/// How long a listing of photos or albums stays good, in milliseconds.
pub const TIMELINE_TTL: i64 = 300_000;

/// How many nodes are resolved at a time.
pub const TIMELINE_ENRICH_CHUNK: usize = 200;

/// What a request for the albums does.
#[derive(Debug, Clone, Copy, PartialEq, Eq, Structural)]
pub enum AlbumsPlan {
    /// The account has no photos.
    NoVolume,
    /// There is nothing on disk: fetch, and then answer.
    Fetch,
    /// Answer from disk, and fetch behind the caller.
    ServeAndRefresh,
    Serve,
}

/// What a request for the albums does. `available` is what is known of the account
/// having photos at all.
pub fn albums(count: usize, available: Option<i64>, stale: bool) -> (r: AlbumsPlan)
    ensures
        r == (if count == 0 {
            if available == Some(0i64) && !stale {
                AlbumsPlan::NoVolume
            } else {
                AlbumsPlan::Fetch
            }
        } else if stale {
            AlbumsPlan::ServeAndRefresh
        } else {
            AlbumsPlan::Serve
        }),
{
    if count == 0 {
        let known_empty: bool = match available {
            Some(n) => n == 0,
            None => false,
        };
        if known_empty && !stale {
            AlbumsPlan::NoVolume
        } else {
            AlbumsPlan::Fetch
        }
    } else if stale {
        AlbumsPlan::ServeAndRefresh
    } else {
        AlbumsPlan::Serve
    }
}

/// Whether a refresh of the albums is started behind the caller: one at a time. The flag
/// is up afterwards.
pub fn spawn_albums_refresh(refreshing: &mut bool) -> (r: bool)
    ensures
        r == !*old(refreshing),
        *final(refreshing),
{
    let start = !*refreshing;
    *refreshing = true;
    start
}

/// What a request for an album's photos does: the first one waits.
pub fn album_photos(count: usize, stale: bool) -> (r: AlbumsPlan)
    ensures
        r == (if count == 0 {
            AlbumsPlan::Fetch
        } else if stale {
            AlbumsPlan::ServeAndRefresh
        } else {
            AlbumsPlan::Serve
        }),
{
    if count == 0 {
        AlbumsPlan::Fetch
    } else if stale {
        AlbumsPlan::ServeAndRefresh
    } else {
        AlbumsPlan::Serve
    }
}

/// An album as it is stored.
#[derive(Debug)]
pub struct StoredAlbum {
    pub shared: bool,
    pub uid: String,
    pub name: String,
    pub photo_count: u64,
    pub cover_uid: Option<String>,
    pub last_activity: Option<i64>,
}

/// Whether `a` stores the album node. `shared` are the albums of others.
pub open spec fn stores_album(a: StoredAlbum, node: Node, shared: Seq<String>) -> bool {
    &&& a.uid@ == node.uid@.text()
    &&& a.shared == among(shared, node.uid@.text())
    &&& a.name == node.name
    &&& match node.album {
        None => a.photo_count == 0 && a.cover_uid is None && a.last_activity is None,
        Some(p) => {
            &&& a.photo_count == (if p.photo_count < 0 {
                0
            } else {
                p.photo_count as int
            })
            &&& opt_view(a.cover_uid) == (match p.cover_photo_uid {
                Some(u) => Some(u@.text()),
                None => None,
            })
            &&& a.last_activity == p.last_activity_time
        },
    }
}

fn store_album(node: &Node, shared: &Vec<String>) -> (r: StoredAlbum)
    ensures
        stores_album(r, *node, shared@),
{
    let uid = node.uid.to_text();
    let mine = is_among(shared, uid.as_str());
    match &node.album {
        None => StoredAlbum {
            shared: mine,
            uid,
            name: node.name.clone(),
            photo_count: 0,
            cover_uid: None,
            last_activity: None,
        },
        Some(p) => StoredAlbum {
            shared: mine,
            uid,
            name: node.name.clone(),
            photo_count: if p.photo_count < 0 {
                0
            } else {
                p.photo_count as u64
            },
            cover_uid: match &p.cover_photo_uid {
                Some(u) => Some(u.to_text()),
                None => None,
            },
            last_activity: p.last_activity_time,
        },
    }
}

/// Whether the first activity is later: an album without one comes last.
pub open spec fn later(a: Option<i64>, b: Option<i64>) -> bool {
    match (a, b) {
        (Some(x), Some(y)) => x > y,
        (Some(_), None) => true,
        _ => false,
    }
}

/// The order of albums: the latest activity first, then by name without regard to
/// case.
pub open spec fn album_before() -> spec_fn(StoredAlbum, StoredAlbum) -> bool {
    |a: StoredAlbum, b: StoredAlbum| album_less(a, b)
}

/// The order of two albums.
pub open spec fn album_less(a: StoredAlbum, b: StoredAlbum) -> bool {
    later(a.last_activity, b.last_activity) || (a.last_activity == b.last_activity && text_lt(
        lowercase(a.name@),
        lowercase(b.name@),
    ))
}

fn less_album(a: &StoredAlbum, b: &StoredAlbum) -> (r: bool)
    ensures
        r == album_less(*a, *b),
{
    let same: bool = match (a.last_activity, b.last_activity) {
        (Some(x), Some(y)) => {
            if x > y {
                return true;
            }
            x == y
        },
        (Some(_), None) => {
            return true;
        },
        (None, None) => true,
        (None, Some(_)) => false,
    };
    same && text_less(
        to_lowercase(a.name.as_str()).as_str(),
        to_lowercase(b.name.as_str()).as_str(),
    )
}

/// Whether `rows` store the album nodes, in their order.
pub open spec fn stores_albums(rows: Seq<StoredAlbum>, nodes: Seq<Node>, shared: Seq<String>) -> bool {
    &&& rows.len() == nodes.len()
    &&& forall|i: int| 0 <= i < rows.len() ==> stores_album(#[trigger] rows[i], nodes[i], shared)
}

/// The listing of the albums, from their nodes.
pub fn refresh_albums(nodes: &Vec<Node>, shared: &Vec<String>) -> (r: Vec<StoredAlbum>)
    ensures
        exists|rows: Seq<StoredAlbum>| #[trigger]
            stores_albums(rows, nodes@, shared@) && r@ == stable_sort(rows, album_before()),
        r@.len() == nodes@.len(),
        // Every album is there, and the one with the latest activity comes first.
        forall|k: int|
            0 <= k < nodes@.len() ==> exists|i: int|
                0 <= i < r@.len() && (#[trigger] r@[i]).uid@ == (#[trigger] nodes@[k]).uid@.text()
                    && r@[i].name == nodes@[k].name,
        forall|i: int, j: int|
            #![trigger r@[i], r@[j]]
            0 <= i < j < r@.len() ==> {
                &&& r@[j].last_activity is Some ==> r@[i].last_activity is Some
                    && r@[i].last_activity->0 >= r@[j].last_activity->0
                &&& r@[i].last_activity == r@[j].last_activity ==> !text_lt(
                    lowercase(r@[j].name@),
                    lowercase(r@[i].name@),
                )
            },
{
    let mut rows: Vec<StoredAlbum> = Vec::new();
    let mut i: usize = 0;
    while i < nodes.len()
        invariant
            i <= nodes@.len(),
            rows@.len() == i,
            forall|k: int| 0 <= k < i ==> stores_album(#[trigger] rows@[k], nodes@[k], shared@),
        decreases nodes@.len() - i,
    {
        let a = store_album(&nodes[i], shared);
        rows.push(a);
        i = i + 1;
    }
    let less = |a: &StoredAlbum, b: &StoredAlbum| -> (x: bool)
        ensures
            x == album_less(*a, *b),
        { less_album(a, b) };
    assert(stores_albums(rows@, nodes@, shared@));
    proof {
        lemma_album_order();
        law_stable_sort_sorts(rows@, album_before());
        lemma_sort_has(rows@, album_before());
        let r = stable_sort(rows@, album_before());
        assert forall|k: int| 0 <= k < nodes@.len() implies exists|i: int|
            0 <= i < r.len() && (#[trigger] r[i]).uid@ == (#[trigger] nodes@[k]).uid@.text()
                && r[i].name == nodes@[k].name by {
            assert(r.contains(rows@[k]));
            let i = choose|i: int| 0 <= i < r.len() && r[i] == rows@[k];
            assert(r[i].uid@ == nodes@[k].uid@.text());
        }
        assert forall|i: int, j: int|
            #![trigger r[i], r[j]]
            0 <= i < j < r.len() implies {
            &&& r[j].last_activity is Some ==> r[i].last_activity is Some
                && r[i].last_activity->0 >= r[j].last_activity->0
            &&& r[i].last_activity == r[j].last_activity ==> !text_lt(
                lowercase(r[j].name@),
                lowercase(r[i].name@),
            )
        } by {
            assert(!(album_before())(r[j], r[i]));
        }
    }
    sort_stable(rows, less, Ghost(album_before()))
}

/// An album as a front-end is told of it.
#[derive(Debug)]
pub struct AlbumInfo {
    pub uid: String,
    pub name: String,
    pub photo_count: u64,
    pub cover_uid: Option<String>,
    pub last_activity: Option<i64>,
    pub shared: bool,
}

/// An album as a front-end is told of it. A cover that cannot be named is none.
pub open spec fn told(album: StoredAlbum) -> AlbumInfo {
    AlbumInfo {
        uid: album.uid,
        name: album.name,
        photo_count: album.photo_count,
        cover_uid: match album.cover_uid {
            Some(u) => if uid_written(u@) is Some {
                Some(u)
            } else {
                None
            },
            None => None,
        },
        last_activity: album.last_activity,
        shared: album.shared,
    }
}

/// What a request for the albums is answered, once its plan was carried out. `volume` is
/// whether a fetch found that the account has photos, and `stored` is what is on disk by
/// then. An account without photos has no albums to tell of, not even none.
pub fn albums_answer(plan: AlbumsPlan, volume: bool, stored: Vec<StoredAlbum>) -> (r: Option<
    Vec<AlbumInfo>,
>)
    ensures
        match r {
            None => plan is NoVolume || (plan is Fetch && !volume),
            Some(infos) => !(plan is NoVolume) && !(plan is Fetch && !volume) && infos@
                == stored@.map_values(|a: StoredAlbum| told(a)),
        },
{
    match plan {
        AlbumsPlan::NoVolume => {
            return None;
        },
        AlbumsPlan::Fetch => if !volume {
            return None;
        },
        _ => {},
    }
    let ghost all = stored@;
    let ghost mut i: int = 0;
    let mut left = stored;
    let mut infos: Vec<AlbumInfo> = Vec::new();
    while left.len() > 0
        invariant
            0 <= i <= all.len(),
            left@ == all.skip(i),
            infos@ == all.take(i).map_values(|a: StoredAlbum| told(a)),
        decreases left@.len(),
    {
        let album = left.remove(0);
        infos.push(album_info(album));
        proof {
            assert(album == all[i]);
            assert(left@ =~= all.skip(i + 1));
            assert(infos@ =~= all.take(i + 1).map_values(|a: StoredAlbum| told(a)));
            i = i + 1;
        }
    }
    assert(i == all.len());
    assert(all.take(i) =~= all);
    Some(infos)
}

/// An album as a front-end is told of it. A cover that cannot be named is none.
pub fn album_info(album: StoredAlbum) -> (r: AlbumInfo)
    ensures
        r == told(album),
{
    let cover_uid: Option<String> = match album.cover_uid {
        Some(u) => if parse_uid(u.as_str()).is_some() {
            Some(u)
        } else {
            None
        },
        None => None,
    };
    AlbumInfo {
        uid: album.uid,
        name: album.name,
        photo_count: album.photo_count,
        cover_uid,
        last_activity: album.last_activity,
        shared: album.shared,
    }
}

/// A photo as an album lists it.
#[derive(Debug)]
pub struct AlbumItem {
    pub uid: NodeUid,
    pub capture_time: i64,
}

/// A photo of an album as it is stored.
#[derive(Debug)]
pub struct AlbumRow {
    pub uid: String,
    pub capture_time: i64,
    pub name: Option<String>,
    pub media_type: Option<String>,
}

/// The node of a photo, where it was resolved: photos are told apart by the written form
/// of their uids.
pub open spec fn photo_node(nodes: Seq<Node>, uid: Uid) -> Option<Node> {
    last_where(nodes, is_written_as(uid.text()))
}

/// Whether the uid of a node is written as `text`.
pub open spec fn is_written_as(text: Seq<char>) -> spec_fn(Node) -> bool {
    |n: Node| n.uid@.text() == text
}

/// Whether `row` stores the photo.
pub open spec fn stores_photo(row: AlbumRow, item: AlbumItem, nodes: Seq<Node>) -> bool {
    &&& row.uid@ == item.uid@.text()
    &&& row.capture_time == item.capture_time
    &&& match photo_node(nodes, item.uid@) {
        None => row.name is None && row.media_type is None,
        Some(n) => {
            &&& row.name == Some(n.name)
            &&& row.media_type == (match n.kind {
                NodeKind::File { media_type, .. } => Some(media_type),
                NodeKind::Folder => None,
            })
        },
    }
}

fn store_photo(item: &AlbumItem, nodes: &Vec<Node>) -> (r: AlbumRow)
    ensures
        stores_photo(r, *item, nodes@),
{
    let ghost p = is_written_as(item.uid@.text());
    let key = item.uid.to_text();
    let mut i: usize = nodes.len();
    assert(nodes@.take(i as int) =~= nodes@);
    while i > 0
        invariant
            i <= nodes@.len(),
            p == is_written_as(key@),
            key@ == item.uid@.text(),
            last_where(nodes@, p) == last_where(nodes@.take(i as int), p),
        decreases i,
    {
        let n = &nodes[i - 1];
        assert(nodes@.take(i as int).last() == *n);
        assert(nodes@.take(i as int).drop_last() =~= nodes@.take(i - 1));
        let written = n.uid.to_text();
        if same_text(written.as_str(), key.as_str()) {
            let media_type: Option<String> = match &n.kind {
                NodeKind::File { media_type, .. } => Some(media_type.clone()),
                NodeKind::Folder => None,
            };
            return AlbumRow {
                uid: key,
                capture_time: item.capture_time,
                name: Some(n.name.clone()),
                media_type,
            };
        }
        i = i - 1;
    }
    AlbumRow {
        uid: key,
        capture_time: item.capture_time,
        name: None,
        media_type: None,
    }
}

/// The contents of an album, from its listing and the nodes that were resolved. A
/// photo that was not resolved has neither a name nor a type.
pub fn refresh_album(items: &Vec<AlbumItem>, nodes: &Vec<Node>) -> (r: Vec<AlbumRow>)
    ensures
        r@.len() == items@.len(),
        forall|i: int| 0 <= i < items@.len() ==> stores_photo(#[trigger] r@[i], items@[i], nodes@),
{
    let mut rows: Vec<AlbumRow> = Vec::new();
    let mut i: usize = 0;
    while i < items.len()
        invariant
            i <= items@.len(),
            rows@.len() == i,
            forall|k: int| 0 <= k < i ==> stores_photo(#[trigger] rows@[k], items@[k], nodes@),
        decreases items@.len() - i,
    {
        let row = store_photo(&items[i], nodes);
        rows.push(row);
        i = i + 1;
    }
    rows
}

/// How one photo of a change to an album came out.
#[derive(Debug)]
pub struct PhotoOutcome {
    pub uid: NodeUid,
    /// Why it failed, if it did.
    pub error: Option<String>,
}

/// The photos that a change applied to.
pub open spec fn applied_to(all: Seq<PhotoOutcome>) -> Seq<Seq<char>>
    decreases all.len(),
{
    if all.len() == 0 {
        seq![]
    } else if all.last().error is None {
        applied_to(all.drop_last()).push(all.last().uid@.text())
    } else {
        applied_to(all.drop_last())
    }
}

/// The photos that a change failed for, each with why.
pub open spec fn failed_for(all: Seq<PhotoOutcome>) -> Seq<(Seq<char>, Seq<char>)>
    decreases all.len(),
{
    if all.len() == 0 {
        seq![]
    } else if all.last().error is Some {
        failed_for(all.drop_last()).push((all.last().uid@.text(), (all.last().error->0)@))
    } else {
        failed_for(all.drop_last())
    }
}

/// Split the outcomes of a change to an album.
pub fn album_outcome(all: &Vec<PhotoOutcome>) -> (r: (Vec<String>, Vec<(String, String)>))
    ensures
        r.0@.map_values(|s: String| s@) == applied_to(all@),
        r.1@.map_values(|p: (String, String)| (p.0@, p.1@)) == failed_for(all@),
{
    let mut done: Vec<String> = Vec::new();
    let mut failed: Vec<(String, String)> = Vec::new();
    let ghost f = |s: String| s@;
    let ghost g = |p: (String, String)| (p.0@, p.1@);
    let mut i: usize = 0;
    assert(all@.take(0) =~= Seq::<PhotoOutcome>::empty());
    assert(done@.map_values(f) =~= Seq::<Seq<char>>::empty());
    assert(failed@.map_values(g) =~= Seq::<(Seq<char>, Seq<char>)>::empty());
    while i < all.len()
        invariant
            i <= all@.len(),
            f == (|s: String| s@),
            g == (|p: (String, String)| (p.0@, p.1@)),
            done@.map_values(f) == applied_to(all@.take(i as int)),
            failed@.map_values(g) == failed_for(all@.take(i as int)),
        decreases all@.len() - i,
    {
        assert(all@.take(i + 1).drop_last() =~= all@.take(i as int));
        assert(all@.take(i + 1).last() == all@[i as int]);
        let uid = all[i].uid.to_text();
        let ghost had = done@;
        let ghost lost = failed@;
        match copy_opt_text(&all[i].error) {
            None => {
                done.push(uid);
                assert(done@.map_values(f) =~= had.map_values(f).push(uid@));
            },
            Some(e) => {
                failed.push((uid, e));
                assert(failed@.map_values(g) =~= lost.map_values(g).push((uid@, e@)));
            },
        }
        i = i + 1;
    }
    assert(all@.take(i as int) =~= all@);
    (done, failed)
}

proof fn lemma_album_order()
    ensures
        strict_weak(album_before()),
{
    assert forall|a: StoredAlbum| !#[trigger] (album_before())(a, a) by {
        law_text_order_is_irreflexive(lowercase(a.name@));
    }
    assert forall|a: StoredAlbum, b: StoredAlbum, c: StoredAlbum| #[trigger]
        (album_before())(a, b) && #[trigger] (album_before())(b, c) implies (album_before())(
        a,
        c,
    ) by {
        lemma_text_chain(lowercase(a.name@), lowercase(b.name@), lowercase(c.name@));
    }
    assert forall|a: StoredAlbum, b: StoredAlbum, c: StoredAlbum|
        #![trigger (album_before())(a, b), (album_before())(b, c)]
        !(album_before())(a, b) && !(album_before())(b, c) implies !(album_before())(a, c) by {
        lemma_text_chain(lowercase(a.name@), lowercase(b.name@), lowercase(c.name@));
    }
}

/// What is kept of an album is what the remote says of it: a count below nothing counts as
/// nothing, and it is shared just where it is among those that others shared.
pub proof fn law_stored_albums_tell_the_remote(a: StoredAlbum, node: Node, shared: Seq<String>)
    requires
        stores_album(a, node, shared),
    ensures
        a.name@ == node.name@,
        a.uid@ == node.uid@.text(),
        a.shared <==> exists|i: int|
            0 <= i < shared.len() && (#[trigger] shared[i])@ == node.uid@.text(),
        a.last_activity is Some ==> node.album is Some && node.album->0.last_activity_time
            == a.last_activity,
        node.album is Some && node.album->0.photo_count >= 0 ==> a.photo_count
            == node.album->0.photo_count,
        node.album is None || node.album->0.photo_count <= 0 ==> a.photo_count == 0,
        a.cover_uid is Some <==> node.album is Some && node.album->0.cover_photo_uid is Some,
{
}

/// What is told of an album is what is kept of it, but for a cover that cannot be read.
pub proof fn law_told_albums_are_the_stored_ones(a: StoredAlbum)
    ensures
        told(a).uid == a.uid && told(a).name == a.name,
        told(a).photo_count == a.photo_count && told(a).last_activity == a.last_activity,
        told(a).shared == a.shared,
        told(a).cover_uid is Some ==> told(a).cover_uid == a.cover_uid && uid_written(
            (a.cover_uid->0)@,
        ) is Some,
        a.cover_uid is Some && uid_written((a.cover_uid->0)@) is Some ==> told(a).cover_uid
            == a.cover_uid,
{
}

/// Each photo is told of once: as applied where nothing failed, and else with its reason.
/// Both lists are in the order of the photos.
pub proof fn law_every_photo_is_answered(all: Seq<PhotoOutcome>)
    ensures
        applied_to(all) == all.filter(|o: PhotoOutcome| o.error is None).map_values(
            |o: PhotoOutcome| o.uid@.text(),
        ),
        failed_for(all) == all.filter(|o: PhotoOutcome| o.error is Some).map_values(
            |o: PhotoOutcome| (o.uid@.text(), (o.error->0)@),
        ),
        applied_to(all).len() + failed_for(all).len() == all.len(),
    decreases all.len(),
{
    reveal(Seq::filter);
    if all.len() > 0 {
        law_every_photo_is_answered(all.drop_last());
    }
    assert(applied_to(all) =~= all.filter(|o: PhotoOutcome| o.error is None).map_values(
        |o: PhotoOutcome| o.uid@.text(),
    ));
    assert(failed_for(all) =~= all.filter(|o: PhotoOutcome| o.error is Some).map_values(
        |o: PhotoOutcome| (o.uid@.text(), (o.error->0)@),
    ));
}

/// A photo is listed under its own uid and time, and under a name only where a node of that
/// uid was read.
pub proof fn law_photos_are_named_by_their_nodes(row: AlbumRow, item: AlbumItem, nodes: Seq<Node>)
    requires
        stores_photo(row, item, nodes),
    ensures
        row.uid@ == item.uid@.text() && row.capture_time == item.capture_time,
        row.name is Some ==> exists|i: int|
            0 <= i < nodes.len() && (#[trigger] nodes[i]).uid@.text() == item.uid@.text()
                && nodes[i].name == row.name->0,
        row.name is None ==> row.media_type is None && forall|i: int|
            0 <= i < nodes.len() ==> (#[trigger] nodes[i]).uid@.text() != item.uid@.text(),
        row.media_type is Some ==> exists|i: int|
            0 <= i < nodes.len() && (#[trigger] nodes[i]).uid@.text() == item.uid@.text()
                && nodes[i].kind is File && nodes[i].kind->media_type == row.media_type->0,
        (forall|i: int|
            0 <= i < nodes.len() && (#[trigger] nodes[i]).uid@.text() == item.uid@.text()
                ==> nodes[i].kind is File) && row.name is Some ==> row.media_type is Some,
{
    crate::lists::law_last_where(nodes, is_written_as(item.uid@.text()));
    match photo_node(nodes, item.uid@) {
        Some(n) => {
            let i = choose|i: int|
                0 <= i < nodes.len() && #[trigger] nodes[i] == n && (is_written_as(
                    item.uid@.text(),
                ))(n);
            assert(nodes[i].name == row.name->0);
        },
        None => {
            assert forall|i: int| 0 <= i < nodes.len() implies (#[trigger] nodes[i]).uid@.text()
                != item.uid@.text() by {
                assert(!(is_written_as(item.uid@.text()))(nodes[i]));
            }
        },
    }
}

} // verus!

//! Writes that are accepted locally and uploaded later.
//!
//! A staged write describes a blob: how long the file is to be, which of its
//! bytes the blob holds, and the remote revision that the rest comes from.

use crate::access::must_preserve;
use crate::error::Errno;
use crate::intervals::{
    authored_in, canonical, covers, cuts, intervals_of, law_one_representation, Intervals, Segment,
};
use crate::node::{apply_pending_sizes, node_revision_id, node_size, Node, NodeKind};
use crate::state::{Entry, State, Tree};
use crate::text::{concat4, copy_opt_text};
use crate::uid::{is_local_uid, NodeUid, Uid};
use crate::uidmap::UidMap;
use vstd::prelude::*;

verus! {

/// The remote revision that a change was made against.
#[derive(Debug)]
pub struct Baseline {
    pub mtime: i64,
    pub size: u64,
    pub hash: Option<String>,
    pub revision_id: Option<String>,
}

impl Clone for Baseline {
    fn clone(&self) -> (r: Self)
        ensures
            r == *self,
    {
        Baseline {
            mtime: self.mtime,
            size: self.size,
            hash: copy_opt_text(&self.hash),
            revision_id: copy_opt_text(&self.revision_id),
        }
    }
}

/// A copy of an optional baseline.
pub fn copy_baseline(b: &Option<Baseline>) -> (r: Option<Baseline>)
    ensures
        r == *b,
{
    match b {
        Some(x) => Some(x.clone()),
        None => None,
    }
}

/// What a staged blob is.
#[derive(Debug)]
pub struct StagedWrite {
    pub uid: String,
    pub len: u64,
    pub base_size: u64,
    pub base_mtime: i64,
    pub authored: Vec<(u64, u64)>,
    pub complete: bool,
    pub based_on: Option<Baseline>,
}

/// A queued write: where its blob is, and what the blob holds.
#[derive(Debug)]
pub struct PendingRevision {
    pub path: String,
    pub meta: StagedWrite,
}

/// Whether the authored ranges are the whole of a file of `len` bytes. An empty
/// file has no ranges, so it is not complete in this sense.
pub open spec fn full(authored: Seq<(u64, u64)>, len: u64) -> bool {
    authored.len() == 1 && authored[0] == (0u64, len)
}

/// Whether the authored ranges are the whole of a file of `len` bytes.
pub fn is_full(authored: &Vec<(u64, u64)>, len: u64) -> (r: bool)
    ensures
        r == full(authored@, len),
{
    authored.len() == 1 && authored[0].0 == 0 && authored[0].1 == len
}

/// The offsets that an earlier write gives to the write that supersedes it: those
/// inside both files that the earlier one authored and the newer one did not.
pub open spec fn inherited(newer: StagedWrite, earlier: StagedWrite, x: int) -> bool {
    &&& 0 <= x < newer.len
    &&& x < earlier.len
    &&& covers(earlier.authored@, x)
    &&& !covers(newer.authored@, x)
}

proof fn lemma_covers_concat(a: Seq<(u64, u64)>, b: Seq<(u64, u64)>, x: int)
    ensures
        covers(a + b, x) == (covers(a, x) || covers(b, x)),
{
    let c = a + b;
    if covers(a, x) {
        let i = choose|i: int| 0 <= i < a.len() && (#[trigger] a[i]).0 <= x < a[i].1;
        assert(c[i] == a[i]);
    }
    if covers(b, x) {
        let i = choose|i: int| 0 <= i < b.len() && (#[trigger] b[i]).0 <= x < b[i].1;
        assert(c[a.len() + i] == b[i]);
    }
    if covers(c, x) {
        let i = choose|i: int| 0 <= i < c.len() && (#[trigger] c[i]).0 <= x < c[i].1;
        if i < a.len() {
            assert(a[i] == c[i]);
        } else {
            assert(b[i - a.len()] == c[i]);
        }
    }
}

proof fn lemma_canonical_concat(a: Seq<(u64, u64)>, b: Seq<(u64, u64)>)
    requires
        canonical(a),
        canonical(b),
        a.len() > 0 && b.len() > 0 ==> a.last().1 < b[0].0,
    ensures
        canonical(a + b),
{
    let c = a + b;
    assert forall|i: int| 0 <= i < c.len() implies (#[trigger] c[i]).0 < c[i].1 by {
        if i < a.len() {
            assert(c[i] == a[i]);
        } else {
            assert(c[i] == b[i - a.len()]);
        }
    }
    assert forall|i: int, j: int| 0 <= i < j < c.len() implies (#[trigger] c[i]).1 < (
    #[trigger] c[j]).0 by {
        if j < a.len() {
            assert(c[i] == a[i] && c[j] == a[j]);
        } else if i >= a.len() {
            assert(c[i] == b[i - a.len()] && c[j] == b[j - a.len()]);
        } else {
            assert(c[i] == a[i] && c[j] == b[j - a.len()]);
            if i < a.len() - 1 {
                assert(a[i].1 < a[a.len() - 1].0);
            }
            if j > a.len() {
                assert(b[0].1 < b[j - a.len()].0);
            }
            assert(b[0].0 < b[0].1);
        }
    }
}

proof fn lemma_inside(runs: Seq<(u64, u64)>, start: int, end: int)
    requires
        canonical(runs),
        forall|x: int| #[trigger] covers(runs, x) ==> start <= x < end,
    ensures
        runs.len() > 0 ==> start <= runs[0].0 && runs.last().1 <= end,
{
    if runs.len() > 0 {
        assert(runs[0].0 <= runs[0].0 < runs[0].1);
        assert(covers(runs, runs[0].0 as int));
        let k = runs.len() - 1;
        assert(runs[k].0 <= runs[k].1 - 1 < runs[k].1);
        assert(covers(runs, runs[k].1 - 1));
    }
}

fn append_runs(out: &mut Vec<(u64, u64)>, written: &mut Intervals, pieces: &Vec<(u64, u64)>)
    requires
        old(written).wf(),
    ensures
        final(written).wf(),
        final(out)@ == old(out)@ + pieces@,
        forall|x: int| #[trigger]
            final(written).has(x) == (old(written).has(x) || covers(pieces@, x)),
{
    let mut i: usize = 0;
    assert(pieces@.take(0) =~= Seq::<(u64, u64)>::empty());
    assert(out@ =~= old(out)@ + pieces@.take(0));
    while i < pieces.len()
        invariant
            i <= pieces@.len(),
            written.wf(),
            out@ == old(out)@ + pieces@.take(i as int),
            forall|x: int| #[trigger]
                written.has(x) == (old(written).has(x) || covers(pieces@.take(i as int), x)),
        decreases pieces@.len() - i,
    {
        let (s, e) = pieces[i];
        let ghost had = *written;
        written.add(s, e);
        out.push((s, e));
        proof {
            let part = pieces@.take(i as int);
            let one = seq![(s, e)];
            assert(pieces@.take(i + 1) =~= part + one);
            assert(out@ =~= old(out)@ + pieces@.take(i + 1));
            assert forall|x: int| #[trigger]
                written.has(x) == (old(written).has(x) || covers(pieces@.take(i + 1), x)) by {
                lemma_covers_concat(part, one, x);
                assert(had.has(x) == (old(written).has(x) || covers(part, x)));
                if s <= x < e {
                    assert(one[0].0 <= x < one[0].1);
                }
            }
        }
        i = i + 1;
    }
    assert(pieces@.take(i as int) =~= pieces@);
}

/// The ranges below `len` and `stop` that `earlier` holds and `written` does not;
/// they are added to `written`.
fn inherit(written: &mut Intervals, earlier: &Intervals, len: u64, stop: u64) -> (copies: Vec<
    (u64, u64),
>)
    requires
        old(written).wf(),
        earlier.wf(),
    ensures
        final(written).wf(),
        canonical(copies@),
        forall|x: int| #[trigger]
            covers(copies@, x) == (0 <= x < len && x < stop && earlier.has(x) && !old(written).has(
                x,
            )),
        forall|x: int| #[trigger]
            final(written).has(x) == (old(written).has(x) || covers(copies@, x)),
{
    let ghost newer = *written;
    let segs = written.segments(0, len);
    let mut copies: Vec<(u64, u64)> = Vec::new();
    let mut i: usize = 0;
    let ghost mut at: int = 0;
    while i < segs.len()
        invariant
            i <= segs@.len(),
            written.wf(),
            earlier.wf(),
            segs@.len() > 0 ==> cuts(segs@, 0, len as int, newer.runs@),
            at == if i == 0 {
                0
            } else {
                segs@[i - 1].1 as int
            },
            at <= len,
            canonical(copies@),
            copies@.len() > 0 ==> copies@.last().1 <= at,
            copies@.len() > 0 && i < segs@.len() && !segs@[i as int].2 ==> copies@.last().1 < at,
            forall|x: int| #[trigger]
                covers(copies@, x) == (0 <= x < at && x < stop && earlier.has(x) && !newer.has(x)),
            forall|x: int| #[trigger]
                written.has(x) == (newer.has(x) || covers(copies@, x)),
        decreases segs@.len() - i,
    {
        let (s, e, authored) = segs[i];
        proof {
            if i > 0 {
                assert(segs@[i as int].0 == segs@[i - 1].1);
            }
            assert(segs@[i as int].0 < segs@[i as int].1);
            lemma_segment_end(segs@, len as int, newer.runs@, i as int);
            if i + 1 < segs@.len() {
                assert(segs@[i + 1].2 != segs@[i + 1 - 1].2);
            }
        }
        if authored {
            proof {
                assert forall|x: int| #[trigger]
                    covers(copies@, x) == (0 <= x < e && x < stop && earlier.has(x) && !newer.has(
                        x,
                    )) by {
                    if at <= x < e {
                        assert(covers(newer.runs@, x) == segs@[i as int].2);
                    }
                }
            }
        } else {
            let end: u64 = if e < stop {
                e
            } else {
                stop
            };
            let pieces = authored_in(earlier, s, end);
            let ghost had = copies@;
            let ghost before = *written;
            append_runs(&mut copies, written, &pieces);
            proof {
                lemma_inside(pieces@, s as int, end as int);
                lemma_canonical_concat(had, pieces@);
                assert forall|x: int| #[trigger]
                    covers(copies@, x) == (0 <= x < e && x < stop && earlier.has(x) && !newer.has(
                        x,
                    )) by {
                    lemma_covers_concat(had, pieces@, x);
                    assert(covers(pieces@, x) == (s <= x < end && earlier.has(x)));
                    if at <= x < e {
                        assert(covers(newer.runs@, x) == segs@[i as int].2);
                    }
                }
                assert forall|x: int| #[trigger]
                    written.has(x) == (newer.has(x) || covers(copies@, x)) by {
                    lemma_covers_concat(had, pieces@, x);
                    assert(before.has(x) == (newer.has(x) || covers(had, x)));
                }
            }
        }
        proof {
            at = e as int;
        }
        i = i + 1;
    }
    copies
}

/// Fold the blob of an undrained write into the write that is about to supersede
/// it. The answer is the list of ranges whose bytes are to be copied from the
/// earlier blob. What neither wrote is the remote content that the earlier write
/// was based on, so the base and the baseline are the earlier write's.
pub fn merge_over_pending(meta: &mut StagedWrite, previous: &PendingRevision) -> (copies: Vec<
    (u64, u64),
>)
    ensures
        canonical(copies@),
        forall|x: int| #[trigger]
            covers(copies@, x) == inherited(*old(meta), previous.meta, x),
        final(meta).uid == old(meta).uid,
        final(meta).len == old(meta).len,
        final(meta).base_size == previous.meta.base_size,
        final(meta).base_mtime == previous.meta.base_mtime,
        final(meta).based_on == previous.meta.based_on,
        canonical(final(meta).authored@),
        forall|x: int| #[trigger]
            covers(final(meta).authored@, x) == (0 <= x < old(meta).len && (covers(
                old(meta).authored@,
                x,
            ) || inherited(*old(meta), previous.meta, x))),
        final(meta).complete == full(final(meta).authored@, old(meta).len),
{
    let mut written = intervals_of(&meta.authored);
    let ghost newer = written;
    let earlier = intervals_of(&previous.meta.authored);
    let copies = inherit(&mut written, &earlier, meta.len, previous.meta.len);
    proof {
        assert forall|x: int| #[trigger]
            covers(copies@, x) == inherited(*old(meta), previous.meta, x) by {
            assert(earlier.has(x) == covers(previous.meta.authored@, x));
            assert(newer.has(x) == covers(old(meta).authored@, x));
        }
    }
    let kept = authored_in(&written, 0, meta.len);
    proof {
        assert forall|x: int| #[trigger]
            covers(kept@, x) == (0 <= x < old(meta).len && (covers(old(meta).authored@, x)
                || inherited(*old(meta), previous.meta, x))) by {
            assert(written.has(x) == (newer.has(x) || covers(copies@, x)));
            assert(newer.has(x) == covers(old(meta).authored@, x));
        }
    }
    meta.base_size = previous.meta.base_size;
    meta.base_mtime = previous.meta.base_mtime;
    meta.based_on = copy_baseline(&previous.meta.based_on);
    meta.complete = is_full(&kept, meta.len);
    meta.authored = kept;
    copies
}

proof fn lemma_segment_end(segs: Seq<Segment>, end: int, runs: Seq<(u64, u64)>, i: int)
    requires
        cuts(segs, 0, end, runs),
        0 <= i < segs.len(),
    ensures
        segs[i].1 <= end,
    decreases segs.len() - i,
{
    if i < segs.len() - 1 {
        lemma_segment_end(segs, end, runs, i + 1);
        assert(segs[i + 1].0 == segs[i + 1 - 1].1);
        assert(segs[i + 1].0 < segs[i + 1].1);
    }
}

/// The content of a file that is cut and overlaid: the blob where it was
/// authored, and what lies under it elsewhere.
pub open spec fn overlaid(blob: spec_fn(int) -> u8, authored: Seq<(u64, u64)>, under: spec_fn(
    int,
) -> u8) -> spec_fn(int) -> u8 {
    |x: int|
        if covers(authored, x) {
            blob(x)
        } else {
            under(x)
        }
}

/// A blob after the bytes of `copies` were copied into it from another one.
pub open spec fn copied(blob: spec_fn(int) -> u8, copies: Seq<(u64, u64)>, from: spec_fn(
    int,
) -> u8) -> spec_fn(int) -> u8 {
    |x: int|
        if covers(copies, x) {
            from(x)
        } else {
            blob(x)
        }
}

/// Nothing is lost when a write supersedes an undrained one: the merged write
/// over the remote base reads as the newer write over the earlier one over that
/// base, at every offset that both files have.
pub proof fn law_merge_keeps_every_byte(
    newer: StagedWrite,
    earlier: StagedWrite,
    merged: Seq<(u64, u64)>,
    copies: Seq<(u64, u64)>,
    blob: spec_fn(int) -> u8,
    old_blob: spec_fn(int) -> u8,
    base: spec_fn(int) -> u8,
    x: int,
)
    requires
        forall|y: int| #[trigger] covers(copies, y) == inherited(newer, earlier, y),
        forall|y: int| #[trigger]
            covers(merged, y) == (0 <= y < newer.len && (covers(newer.authored@, y) || inherited(
                newer,
                earlier,
                y,
            ))),
        0 <= x < newer.len,
        x < earlier.len,
    ensures
        overlaid(copied(blob, copies, old_blob), merged, base)(x) == overlaid(
            blob,
            newer.authored@,
            overlaid(old_blob, earlier.authored@, base),
        )(x),
{
    assert(covers(copies, x) == inherited(newer, earlier, x));
    assert(covers(merged, x) == (covers(newer.authored@, x) || inherited(newer, earlier, x)));
}

/// The remote revision that a change to `uid` is made against.
///
/// A write over a queued one inherits that one's baseline: its own base is the
/// staged blob, which the remote never had. A node that exists only locally has
/// no baseline at all.
pub open spec fn baseline_of(
    uid: Uid,
    mtime: i64,
    size: u64,
    revision_id: Option<String>,
    pending: Option<PendingRevision>,
) -> Option<Baseline> {
    if uid.is_local() {
        None
    } else {
        match pending {
            Some(p) => p.meta.based_on,
            None => Some(Baseline { mtime, size, hash: None, revision_id }),
        }
    }
}

/// What `pending` holds for `uid`.
pub open spec fn queued(pending: Map<Uid, PendingRevision>, uid: Uid) -> Option<PendingRevision> {
    if pending.dom().contains(uid) {
        Some(pending[uid])
    } else {
        None
    }
}

/// The remote revision that a change to `uid` is made against.
pub fn remote_baseline(
    uid: &NodeUid,
    base_mtime: i64,
    base_size: u64,
    base_revision_id: &Option<String>,
    pending: &UidMap<PendingRevision>,
) -> (r: Option<Baseline>)
    ensures
        r == baseline_of(uid@, base_mtime, base_size, *base_revision_id, queued(pending@, uid@)),
{
    if is_local_uid(uid) {
        return None;
    }
    match pending.get(uid) {
        Some(p) => copy_baseline(&p.meta.based_on),
        None => Some(
            Baseline {
                mtime: base_mtime,
                size: base_size,
                hash: None,
                revision_id: copy_opt_text(base_revision_id),
            },
        ),
    }
}

/// A file that is open for writing.
#[derive(Debug)]
pub struct WriteHandle {
    pub uid: NodeUid,
    pub ino: u64,
    /// Where the bytes written so far are.
    pub path: String,
    pub len: u64,
    pub base_size: u64,
    pub base_mtime: i64,
    pub base_revision_id: Option<String>,
    pub written: Intervals,
    pub dirty: bool,
}

impl WriteHandle {
    /// The write that a blob with the bytes `held` stands for.
    pub open spec fn describes(
        self,
        held: spec_fn(int) -> bool,
        pending: Map<Uid, PendingRevision>,
        m: StagedWrite,
    ) -> bool {
        &&& m.uid@ == self.uid@.text()
        &&& m.len == self.len
        &&& m.base_size == self.base_size
        &&& m.base_mtime == self.base_mtime
        &&& canonical(m.authored@)
        &&& forall|x: int| #[trigger] covers(m.authored@, x) == (0 <= x < self.len && held(x))
        &&& m.complete == full(m.authored@, self.len)
        &&& m.based_on == baseline_of(
            self.uid@,
            self.base_mtime,
            self.base_size,
            self.base_revision_id,
            queued(pending, self.uid@),
        )
    }
}

/// Describe a released handle whose blob holds the bytes of `written`.
pub fn seal_write(
    h: &WriteHandle,
    written: &Intervals,
    pending: &UidMap<PendingRevision>,
) -> (r: StagedWrite)
    requires
        written.wf(),
    ensures
        h.describes(|x: int| written.has(x), pending@, r),
{
    let authored = authored_in(written, 0, h.len);
    StagedWrite {
        uid: h.uid.to_text(),
        len: h.len,
        base_size: h.base_size,
        base_mtime: h.base_mtime,
        complete: is_full(&authored, h.len),
        authored,
        based_on: remote_baseline(
            &h.uid,
            h.base_mtime,
            h.base_size,
            &h.base_revision_id,
            pending,
        ),
    }
}

/// Describe what a handle wrote, without filling any gap.
pub fn recovery_meta(h: &WriteHandle, pending: &UidMap<PendingRevision>) -> (r: StagedWrite)
    requires
        h.written.wf(),
    ensures
        h.describes(|x: int| h.written.has(x), pending@, r),
{
    seal_write(h, &h.written, pending)
}

/// What becomes of a released handle.
#[derive(Debug, Clone, Copy, PartialEq, Eq, Structural)]
pub enum Release {
    /// Nothing was written: drop the scratch file and its marker.
    Untouched,
    /// Writing is no longer allowed: keep the bytes, and refuse.
    Preserve(Errno),
    Refuse(Errno),
    /// The node was removed before it was ever created: drop the scratch file
    /// and its marker.
    Forgotten,
    /// Drop the marker, resize the scratch file, fill what can be filled and
    /// stage the bytes. The base to fill from has `fill` bytes; with none, the
    /// gaps are left for the write that this one supersedes.
    Stage { fill: Option<u64> },
}

/// Decide what becomes of a released handle. `has_create` is whether the creation
/// of the node is still queued; an answer that cannot be had counts as yes.
pub fn queue_revision(
    h: &WriteHandle,
    access: Result<(), Errno>,
    has_create: Result<bool, ()>,
) -> (r: Release)
    ensures
        r == (if !h.dirty {
            Release::Untouched
        } else if access is Err {
            if access->Err_0 == Errno::Acces {
                Release::Preserve(Errno::Acces)
            } else {
                Release::Refuse(access->Err_0)
            }
        } else if h.uid@.is_local() && has_create == Ok::<bool, ()>(false) {
            Release::Forgotten
        } else if !h.uid@.is_local() {
            Release::Stage { fill: Some(h.base_size) }
        } else if h.base_size > 0 {
            Release::Stage { fill: None }
        } else {
            Release::Stage { fill: Some(0) }
        }),
{
    if !h.dirty {
        return Release::Untouched;
    }
    if let Err(e) = access {
        if must_preserve(access, h.dirty) {
            return Release::Preserve(e);
        }
        return Release::Refuse(e);
    }
    let local = is_local_uid(&h.uid);
    let created = match has_create {
        Ok(b) => b,
        Err(_) => true,
    };
    if local && !created {
        return Release::Forgotten;
    }
    if local && h.base_size > 0 {
        Release::Stage { fill: None }
    } else if local {
        Release::Stage { fill: Some(0) }
    } else {
        Release::Stage { fill: Some(h.base_size) }
    }
}

/// The file that a truncate by path is about.
#[derive(Debug)]
pub struct TruncateBase {
    pub uid: NodeUid,
    pub mtime: i64,
    pub size: u64,
    pub revision_id: Option<String>,
}

/// What a truncate of the inode is about: a file, and nothing else.
pub fn truncate_base(state: &State, ino: u64) -> (r: Result<TruncateBase, Errno>)
    ensures
        r == (if !state@.entries.dom().contains(ino) {
            Err::<TruncateBase, Errno>(Errno::Noent)
        } else {
            let e = state@.entries[ino];
            match e.node.kind {
                NodeKind::Folder => Err(Errno::Isdir),
                NodeKind::File { active_revision_id, .. } => Ok(
                    TruncateBase {
                        uid: e.uid,
                        mtime: e.node.modification_time,
                        size: e.node.kind.size(),
                        revision_id: active_revision_id,
                    },
                ),
            }
        }),
{
    broadcast use vstd::std_specs::hash::group_hash_axioms;

    match state.entries.get(&ino) {
        None => Err(Errno::Noent),
        Some(e) => {
            if e.node.is_folder() {
                Err(Errno::Isdir)
            } else {
                Ok(
                    TruncateBase {
                        uid: e.uid.clone(),
                        mtime: e.node.modification_time,
                        size: node_size(&e.node),
                        revision_id: node_revision_id(&e.node),
                    },
                )
            }
        },
    }
}

/// How a truncate is staged: whether the scratch file starts as a copy of the
/// queued blob, and what it then is.
#[derive(Debug)]
pub struct TruncatePlan {
    pub copy_pending: bool,
    pub meta: StagedWrite,
}

/// The ranges that a truncate defines by itself, over a base of `base` bytes, and
/// whether they are all there is.
pub open spec fn truncated(base: u64, size: u64) -> (Seq<(u64, u64)>, bool) {
    if size == 0 {
        (seq![], true)
    } else if base == 0 {
        (seq![(0u64, size)], true)
    } else if size > base {
        (seq![(base, size)], false)
    } else {
        (seq![], false)
    }
}

/// The staged write that a truncate of `b` to `size` bytes makes.
pub open spec fn truncate_makes(
    b: TruncateBase,
    size: u64,
    pending: Option<PendingRevision>,
    m: StagedWrite,
) -> bool {
    &&& m.uid@ == b.uid@.text()
    &&& m.len == size
    &&& match pending {
        Some(p) => {
            &&& m.base_size == p.meta.len
            &&& m.base_mtime == p.meta.base_mtime
            &&& m.authored@ == truncated(0, size).0
            &&& m.complete
            &&& m.based_on == p.meta.based_on
        },
        None => {
            &&& m.base_size == b.size
            &&& m.base_mtime == b.mtime
            &&& m.authored@ == truncated(b.size, size).0
            &&& m.complete == truncated(b.size, size).1
            &&& m.based_on == baseline_of(b.uid@, b.mtime, b.size, b.revision_id, None)
        },
    }
}

/// Plan a truncate that arrives without a write handle. A file that already has
/// the size needs nothing. Over a complete queued write the plan starts from that
/// write's blob; over an incomplete one there is no safe plan.
pub fn queue_truncate(
    b: &TruncateBase,
    access: Result<(), Errno>,
    size: u64,
    pending: &UidMap<PendingRevision>,
) -> (r: Result<Option<TruncatePlan>, Errno>)
    ensures
        match r {
            Err(e) => access == Err::<(), Errno>(e) || (access is Ok && e == Errno::Io && size
                != b.size && pending@.dom().contains(b.uid@)
                && !pending@[b.uid@].meta.complete),
            Ok(None) => access is Ok && size == b.size,
            Ok(Some(plan)) => {
                &&& access is Ok
                &&& size != b.size
                &&& plan.copy_pending == pending@.dom().contains(b.uid@)
                &&& plan.copy_pending ==> pending@[b.uid@].meta.complete
                &&& truncate_makes(*b, size, queued(pending@, b.uid@), plan.meta)
            },
        },
{
    if let Err(e) = access {
        return Err(e);
    }
    if size == b.size {
        return Ok(None);
    }
    match pending.get(&b.uid) {
        Some(p) => {
            if !p.meta.complete {
                return Err(Errno::Io);
            }
            let mut authored: Vec<(u64, u64)> = Vec::new();
            if size != 0 {
                authored.push((0, size));
            }
            assert(authored@ =~= truncated(0, size).0);
            Ok(
                Some(
                    TruncatePlan {
                        copy_pending: true,
                        meta: StagedWrite {
                            uid: b.uid.to_text(),
                            len: size,
                            base_size: p.meta.len,
                            base_mtime: p.meta.base_mtime,
                            authored,
                            complete: true,
                            based_on: copy_baseline(&p.meta.based_on),
                        },
                    },
                ),
            )
        },
        None => {
            let mut authored: Vec<(u64, u64)> = Vec::new();
            if size != 0 && (b.size == 0 || size > b.size) {
                authored.push((b.size, size));
            }
            assert(authored@ =~= truncated(b.size, size).0);
            Ok(
                Some(
                    TruncatePlan {
                        copy_pending: false,
                        meta: StagedWrite {
                            uid: b.uid.to_text(),
                            len: size,
                            base_size: b.size,
                            base_mtime: b.mtime,
                            authored,
                            complete: size == 0 || b.size == 0,
                            based_on: remote_baseline(
                                &b.uid,
                                b.mtime,
                                b.size,
                                &b.revision_id,
                                pending,
                            ),
                        },
                    },
                ),
            )
        },
    }
}

/// A truncate is complete, and so can be uploaded without the network, just where
/// no byte of the result comes from the base.
pub proof fn law_truncate_is_complete_without_base(base: u64, size: u64)
    ensures
        truncated(base, size).1 <==> forall|x: int|
            0 <= x < size && x < base ==> #[trigger] covers(truncated(base, size).0, x),
        forall|x: int|
            base <= x < size ==> #[trigger] covers(truncated(base, size).0, x),
        forall|x: int| #[trigger] covers(truncated(base, size).0, x) ==> base <= x < size,
{
    let (a, complete) = truncated(base, size);
    assert forall|x: int| base <= x < size implies #[trigger] covers(a, x) by {
        assert(a[0].0 <= x < a[0].1);
    }
    if !complete {
        assert(!covers(a, 0)) by {
            if covers(a, 0) {
                let i = choose|i: int| 0 <= i < a.len() && (#[trigger] a[i]).0 <= 0 < a[i].1;
                assert(a[i] == (base, size));
            }
        }
    }
    assert forall|x: int| #[trigger] covers(a, x) implies base <= x < size by {
        let i = choose|i: int| 0 <= i < a.len() && (#[trigger] a[i]).0 <= x < a[i].1;
        assert(a[i] == (base, size));
    }
}

/// The activity line of a write that could not be queued. `published` is whether
/// the bytes reached staging with a description.
pub fn orphaned_detail(reason: &str, kept_at: &str, published: bool) -> (r: String)
    ensures
        r@ == "write not queued ("@ + reason@ + (if published {
            "); changes kept at "@
        } else {
            "); changes retained at "@
        }) + kept_at@,
{
    if published {
        concat4("write not queued (", reason, "); changes kept at ", kept_at)
    } else {
        concat4("write not queued (", reason, "); changes retained at ", kept_at)
    }
}

/// The name that an activity line gives to an inode; an unknown one has none.
pub fn shown_name(state: &State, ino: u64) -> (r: String)
    ensures
        r@ == (if state@.entries.dom().contains(ino) {
            state@.entries[ino].node.name@
        } else {
            Seq::<char>::empty()
        }),
{
    broadcast use vstd::std_specs::hash::group_hash_axioms;

    match state.entries.get(&ino) {
        Some(e) => e.node.name.clone(),
        None => {
            let s: String = String::new();
            assert(s@ =~= Seq::<char>::empty());
            s
        },
    }
}

/// The sizes that queued writes give their files.
pub open spec fn pending_sizes(pending: Map<Uid, PendingRevision>) -> Map<Uid, u64> {
    pending.map_values(|p: PendingRevision| p.meta.len)
}

/// The sizes that queued writes give their files.
pub fn sizes_of(pending: &UidMap<PendingRevision>) -> (r: UidMap<u64>)
    ensures
        r@ =~= pending_sizes(pending@),
{
    let mut sizes: UidMap<u64> = UidMap::new();
    let n = pending.walk();
    let mut i: usize = 0;
    while i < n
        invariant
            i <= n,
            n == pending.keys().len(),
            forall|u: Uid| #[trigger]
                pending@.dom().contains(u) <==> pending.keys().contains(u),
            forall|u: Uid| #[trigger]
                sizes@.dom().contains(u) <==> pending.keys().take(i as int).contains(u),
            forall|u: Uid| #[trigger]
                sizes@.dom().contains(u) ==> pending@.dom().contains(u) && sizes@[u]
                    == pending@[u].meta.len,
        decreases n - i,
    {
        let (uid, p) = pending.pair_at(i);
        let ghost had = sizes@;
        sizes.insert(uid.clone(), p.meta.len);
        proof {
            let a = pending.keys().take(i as int);
            let b = pending.keys().take(i + 1);
            assert(b =~= a.push(uid@));
            assert forall|u: Uid| #[trigger] sizes@.dom().contains(u) <==> b.contains(u) by {
                assert(had.dom().contains(u) <==> a.contains(u));
                if a.contains(u) {
                    let k = choose|k: int| 0 <= k < a.len() && a[k] == u;
                    assert(b[k] == u);
                }
                if u == uid@ {
                    assert(b[a.len() as int] == u);
                }
                if b.contains(u) && u != uid@ {
                    let k = choose|k: int| 0 <= k < b.len() && b[k] == u;
                    assert(a[k] == u);
                }
            }
        }
        i = i + 1;
    }
    assert(pending.keys().take(i as int) =~= pending.keys());
    assert(sizes@ =~= pending_sizes(pending@));
    sizes
}

/// Give the files among `nodes` that have a queued write the size of that write.
pub fn stamp_pending_sizes(nodes: &mut Vec<Node>, pending: &UidMap<PendingRevision>)
    ensures
        final(nodes)@.len() == old(nodes)@.len(),
        forall|i: int|
            0 <= i < old(nodes)@.len() ==> #[trigger] final(nodes)@[i] == old(nodes)@[i].sized(
                pending_sizes(pending@),
            ),
{
    let sizes = sizes_of(pending);
    apply_pending_sizes(nodes, &sizes);
}

/// Show a write that was just queued in the tree, ahead of the remote: the file has the
/// size of the write, and was changed now. Returns the node to persist, where it is
/// resident.
pub fn record_pending_write(state: &mut State, ino: u64, len: u64, now: i64) -> (r: Option<Node>)
    ensures
        if old(state)@.entries.contains_key(ino) {
            let e = old(state)@.entries[ino];
            let node = Node { kind: e.node.kind.with_size(len), modification_time: now, ..e.node };
            &&& r == Some(node)
            &&& final(state)@ == (Tree {
                entries: old(state)@.entries.insert(ino, Entry { node, ..e }),
                ..old(state)@
            })
        } else {
            r is None && final(state)@ == old(state)@
        },
        old(state)@.wf() ==> final(state)@.wf(),
{
    broadcast use vstd::std_specs::hash::group_hash_axioms;

    let ghost before = state@;
    match state.entries.remove(&ino) {
        None => {
            assert(state@.entries =~= before.entries);
            assert(state@ =~= before);
            None
        },
        Some(e) => {
            let mut e = e;
            e.node.set_size(len);
            e.node.modification_time = now;
            let node = e.node.clone();
            state.entries.insert(ino, e);
            assert(state@.entries =~= before.entries.insert(ino, e));
            assert(state@ =~= (Tree { entries: before.entries.insert(ino, e), ..before }));
            Some(node)
        },
    }
}

/// A write holds the whole file just where it covers each of its bytes: nothing of the file
/// that was there is needed.
pub proof fn law_full_writes_cover_the_file(authored: Seq<(u64, u64)>, len: u64)
    requires
        len > 0,
        canonical(authored),
        forall|x: int| #[trigger] covers(authored, x) ==> 0 <= x < len,
    ensures
        full(authored, len) <==> forall|x: int| 0 <= x < len ==> #[trigger] covers(authored, x),
{
    let whole = seq![(0u64, len)];
    assert(whole[0] == (0u64, len));
    assert forall|x: int| 0 <= x < len implies #[trigger] covers(whole, x) by {
        assert(whole[0].0 <= x < whole[0].1);
    }
    if full(authored, len) {
        assert(authored =~= whole);
    }
    if forall|x: int| 0 <= x < len ==> #[trigger] covers(authored, x) {
        assert(canonical(whole));
        assert forall|x: int| #[trigger] covers(authored, x) == covers(whole, x) by {}
        law_one_representation(authored, whole);
    }
}

/// A truncation writes what a file grows by, and nothing else; it holds the whole file just
/// where nothing of what was there stays.
pub proof fn law_truncate_writes_what_grows(base: u64, size: u64, x: int)
    ensures
        covers(truncated(base, size).0, x) <==> base <= x < size,
        truncated(base, size).1 <==> size == 0 || base == 0,
{
    let runs = truncated(base, size).0;
    if size > base {
        assert(runs[0] == (base, size));
        if base <= x < size {
            assert(runs[0].0 <= x < runs[0].1);
        }
    }
}

/// A truncation of a queued write goes on from what is queued; any other goes on from the
/// file as it is.
pub proof fn law_truncate_keeps_its_base(
    b: TruncateBase,
    size: u64,
    pending: Option<PendingRevision>,
    m: StagedWrite,
)
    requires
        truncate_makes(b, size, pending, m),
    ensures
        m.len == size && m.uid@ == b.uid@.text(),
        pending is Some ==> m.complete && m.based_on == (pending->0).meta.based_on && m.base_mtime
            == (pending->0).meta.base_mtime,
        pending is None ==> m.base_size == b.size && m.base_mtime == b.mtime && (m.complete <==> size
            == 0 || b.size == 0),
        pending is None && !b.uid@.is_local() ==> m.based_on is Some && m.based_on->0.mtime
            == b.mtime && m.based_on->0.size == b.size && m.based_on->0.revision_id
            == b.revision_id,
        pending is None && b.uid@.is_local() ==> m.based_on is None,
{
}

/// A write is based on what the file was when it was opened; behind a queued one it is based
/// on what that is based on, and a file that is not there yet on nothing.
pub proof fn law_writes_are_based_on_what_was_read(
    uid: Uid,
    mtime: i64,
    size: u64,
    revision_id: Option<String>,
    pending: Option<PendingRevision>,
)
    ensures
        uid.is_local() ==> baseline_of(uid, mtime, size, revision_id, pending) is None,
        !uid.is_local() && pending is Some ==> baseline_of(uid, mtime, size, revision_id, pending)
            == (pending->0).meta.based_on,
        !uid.is_local() && pending is None ==> {
            let b = baseline_of(uid, mtime, size, revision_id, pending);
            b is Some && b->0.mtime == mtime && b->0.size == size && b->0.revision_id == revision_id
        },
{
}

/// A file with a queued write is as long as that write, and no other size is told.
pub proof fn law_queued_writes_tell_the_size(pending: Map<Uid, PendingRevision>, uid: Uid)
    ensures
        pending_sizes(pending).contains_key(uid) <==> pending.contains_key(uid),
        pending.contains_key(uid) ==> pending_sizes(pending)[uid] == pending[uid].meta.len,
        queued(pending, uid) is Some <==> pending.contains_key(uid),
        pending.contains_key(uid) ==> queued(pending, uid) == Some(pending[uid]),
{
}

/// What is sealed tells what was written and no more: the bytes that are held, up to the
/// length; it is complete only if it covers them all.
pub proof fn law_sealed_writes_tell_what_is_held(
    h: WriteHandle,
    held: spec_fn(int) -> bool,
    pending: Map<Uid, PendingRevision>,
    m: StagedWrite,
    x: int,
)
    requires
        h.describes(held, pending, m),
    ensures
        m.len == h.len && m.uid@ == h.uid@.text(),
        m.base_size == h.base_size && m.base_mtime == h.base_mtime,
        covers(m.authored@, x) <==> held(x) && 0 <= x < h.len,
        m.complete && 0 <= x < h.len ==> held(x),
        h.len > 0 && (forall|y: int| 0 <= y < h.len ==> #[trigger] held(y)) ==> m.complete,
{
    if h.len > 0 {
        law_full_writes_cover_the_file(m.authored@, h.len);
        if m.complete && 0 <= x < h.len {
            assert(covers(m.authored@, x));
        }
    }
}

/// What is taken over from the write before are its own bytes, as far as the file still goes,
/// and only where nothing newer was written.
pub proof fn law_newer_bytes_are_never_overwritten(
    newer: StagedWrite,
    earlier: StagedWrite,
    x: int,
)
    ensures
        covers(newer.authored@, x) ==> !inherited(newer, earlier, x),
        inherited(newer, earlier, x) ==> covers(earlier.authored@, x) && x < newer.len && x
            < earlier.len,
        covers(earlier.authored@, x) && 0 <= x < newer.len && x < earlier.len && !covers(
            newer.authored@,
            x,
        ) ==> inherited(newer, earlier, x),
{
}

} // verus!

//! Every mounted inode space of the daemon.
//!
//! A path belongs to the mount that covers it most closely, among those whose
//! session is live. A mount whose state is gone is dropped at the next look.

use crate::paths::{components, leads, path_components, texts};
use crate::state::State;
use crate::uid::NodeUid;
use vstd::prelude::*;

verus! {

/// One mounted inode space.
pub struct MountedState<S> {
    /// The absolute local root.
    pub mountpoint: String,
    /// Whether somebody still holds the state.
    pub held: bool,
    /// Whether requests are routed to it.
    pub session_live: bool,
    pub state: S,
}

/// The mounts whose state is still held, in order.
pub open spec fn held_mounts<S>(mounts: Seq<MountedState<S>>) -> Seq<MountedState<S>>
    decreases mounts.len(),
{
    if mounts.len() == 0 {
        seq![]
    } else if mounts.last().held {
        held_mounts(mounts.drop_last()).push(mounts.last())
    } else {
        held_mounts(mounts.drop_last())
    }
}

/// Whether a mount covers a path: its state is held, its session is live, and its
/// root leads the path.
pub open spec fn covers_path<S>(m: MountedState<S>, path: Seq<char>) -> bool {
    m.held && m.session_live && path_components(m.mountpoint@).is_prefix_of(path_components(path))
}

/// The mount that covers a path most closely; of two that do so equally, the one
/// that was registered later.
pub open spec fn covering_in<S>(mounts: Seq<MountedState<S>>, path: Seq<char>) -> Option<int>
    decreases mounts.len(),
{
    if mounts.len() == 0 {
        None
    } else {
        let best = covering_in(mounts.drop_last(), path);
        let m = mounts.last();
        if covers_path(m, path) && (best is None || path_components(
            mounts[best->0].mountpoint@,
        ).len() <= path_components(m.mountpoint@).len()) {
            Some(mounts.len() - 1)
        } else {
            best
        }
    }
}

proof fn lemma_covering<S>(mounts: Seq<MountedState<S>>, path: Seq<char>)
    ensures
        match covering_in(mounts, path) {
            None => forall|i: int| 0 <= i < mounts.len() ==> !covers_path(#[trigger] mounts[i], path),
            Some(b) => {
                &&& 0 <= b < mounts.len()
                &&& covers_path(mounts[b], path)
                &&& forall|i: int|
                    0 <= i < mounts.len() && covers_path(#[trigger] mounts[i], path)
                        ==> path_components(mounts[i].mountpoint@).len() <= path_components(
                        mounts[b].mountpoint@,
                    ).len()
            },
        },
    decreases mounts.len(),
{
    if mounts.len() > 0 {
        let rest = mounts.drop_last();
        lemma_covering(rest, path);
        assert forall|i: int| 0 <= i < mounts.len() - 1 implies #[trigger] mounts[i] == rest[i] by {
        }
    }
}

/// Every mount of the daemon, in the order in which they were registered.
pub struct StateRegistry<S> {
    pub mounts: Vec<MountedState<S>>,
}

impl<S> StateRegistry<S> {
    pub fn new() -> (r: Self)
        ensures
            r.mounts@.len() == 0,
    {
        StateRegistry { mounts: Vec::new() }
    }

    /// Drop the mounts whose state is gone.
    fn reap(&mut self)
        ensures
            final(self).mounts@ == held_mounts(old(self).mounts@),
    {
        let ghost all = self.mounts@;
        let mut kept: Vec<MountedState<S>> = Vec::new();
        let ghost mut i: int = 0;
        assert(all.take(0) =~= Seq::<MountedState<S>>::empty());
        assert(all.skip(0) =~= all);
        while self.mounts.len() > 0
            invariant
                0 <= i <= all.len(),
                self.mounts@ == all.skip(i),
                kept@ == held_mounts(all.take(i)),
            decreases self.mounts@.len(),
        {
            let m = self.mounts.remove(0);
            proof {
                assert(m == all[i]);
                assert(self.mounts@ =~= all.skip(i + 1));
                assert(all.take(i + 1).drop_last() =~= all.take(i));
                assert(all.take(i + 1).last() == m);
                i = i + 1;
            }
            if m.held {
                kept.push(m);
            }
        }
        assert(all.take(i) =~= all);
        self.mounts = kept;
    }

    /// Publish an inode space. It is not routed to until its session is live.
    pub fn register(&mut self, mountpoint: String, state: S, session_live: bool)
        ensures
            final(self).mounts@ == held_mounts(old(self).mounts@).push(
                MountedState { mountpoint, held: true, session_live, state },
            ),
    {
        self.reap();
        self.mounts.push(MountedState { mountpoint, held: true, session_live, state });
    }

    /// The mounts whose state is still held; the others are dropped.
    pub fn live(&mut self) -> (r: &Vec<MountedState<S>>)
        ensures
            r@ == held_mounts(old(self).mounts@),
            final(self).mounts@ == held_mounts(old(self).mounts@),
    {
        self.reap();
        &self.mounts
    }

    /// The mount that covers a path most closely.
    pub fn covering(&self, path: &str) -> (r: Option<usize>)
        ensures
            match r {
                None => covering_in(self.mounts@, path@) is None,
                Some(i) => covering_in(self.mounts@, path@) == Some(i as int) && i
                    < self.mounts@.len(),
            },
    {
        let parts = components(path);
        let mut best: Option<usize> = None;
        let mut best_len: usize = 0;
        let mut i: usize = 0;
        assert(self.mounts@.take(0) =~= Seq::<MountedState<S>>::empty());
        while i < self.mounts.len()
            invariant
                i <= self.mounts@.len(),
                texts(parts@) == path_components(path@),
                match best {
                    None => covering_in(self.mounts@.take(i as int), path@) is None,
                    Some(b) => {
                        &&& covering_in(self.mounts@.take(i as int), path@) == Some(b as int)
                        &&& b < i
                        &&& best_len == path_components(self.mounts@[b as int].mountpoint@).len()
                    },
                },
            decreases self.mounts@.len() - i,
        {
            proof {
                assert(self.mounts@.take(i + 1).drop_last() =~= self.mounts@.take(i as int));
                assert(self.mounts@.take(i + 1).last() == self.mounts@[i as int]);
                if best is Some {
                    assert(self.mounts@.take(i as int)[best->0 as int]
                        == self.mounts@[best->0 as int]);
                }
            }
            let m = &self.mounts[i];
            let root = components(m.mountpoint.as_str());
            assert(texts(root@).len() == root@.len());
            if m.held && m.session_live && leads(&root, &parts) {
                let closer: bool = match best {
                    None => true,
                    Some(_) => best_len <= root.len(),
                };
                if closer {
                    best = Some(i);
                    best_len = root.len();
                }
            }
            i = i + 1;
        }
        assert(self.mounts@.take(i as int) =~= self.mounts@);
        best
    }

    /// Whether a live mount has its root at exactly this path.
    pub fn is_mounted_at(&self, path: &str) -> (r: bool)
        ensures
            r == (match covering_in(self.mounts@, path@) {
                None => false,
                Some(i) => path_components(self.mounts@[i].mountpoint@) == path_components(path@),
            }),
    {
        match self.covering(path) {
            None => false,
            Some(i) => {
                proof {
                    lemma_covering(self.mounts@, path@);
                }
                let root = components(self.mounts[i].mountpoint.as_str());
                let parts = components(path);
                let r = root.len() == parts.len();
                proof {
                    let a = path_components(self.mounts@[i as int].mountpoint@);
                    let b = path_components(path@);
                    assert(a.len() == root@.len() && b.len() == parts@.len());
                    if r {
                        assert(a =~= b.subrange(0, a.len() as int));
                        assert(b.subrange(0, b.len() as int) =~= b);
                    }
                }
                r
            },
        }
    }
}

/// The path is answered in the mount that covers it, with the rest of the path
/// below that mount's root.
pub fn rooted_at<S>(registry: &StateRegistry<S>, path: &str) -> (r: Option<(usize, Vec<String>)>)
    ensures
        match r {
            None => covering_in(registry.mounts@, path@) is None,
            Some((i, rest)) => {
                &&& covering_in(registry.mounts@, path@) == Some(i as int)
                &&& i < registry.mounts@.len()
                &&& path_components(registry.mounts@[i as int].mountpoint@) + texts(rest@)
                    == path_components(path@)
            },
        },
{
    match registry.covering(path) {
        None => None,
        Some(i) => {
            proof {
                lemma_covering(registry.mounts@, path@);
            }
            let root = components(registry.mounts[i].mountpoint.as_str());
            let parts = components(path);
            proof {
                let a = path_components(registry.mounts@[i as int].mountpoint@);
                let b = path_components(path@);
                assert(a.len() == root@.len() && b.len() == parts@.len());
                assert(a =~= b.subrange(0, a.len() as int));
                assert(a + b.skip(a.len() as int) =~= b);
            }
            let rest = crate::paths::without_leading(&parts, root.len());
            Some((i, rest))
        },
    }
}

/// A path is answered by a live mount that covers it, and no live mount that covers
/// it has a longer root: a mount inside another one wins.
pub proof fn law_closest_mount_wins<S>(mounts: Seq<MountedState<S>>, path: Seq<char>, i: int)
    requires
        0 <= i < mounts.len(),
        covers_path(mounts[i], path),
    ensures
        covering_in(mounts, path) is Some,
        ({
            let b = covering_in(mounts, path)->0;
            &&& 0 <= b < mounts.len()
            &&& covers_path(mounts[b], path)
            &&& path_components(mounts[i].mountpoint@).len() <= path_components(
                mounts[b].mountpoint@,
            ).len()
        }),
{
    lemma_covering(mounts, path);
}

impl StateRegistry<State> {
    /// Whether a live mount owns and shows the node.
    pub fn owns_visible_uid(&self, uid: &NodeUid) -> (r: bool)
        ensures
            r == exists|i: int|
                0 <= i < self.mounts@.len() && (#[trigger] self.mounts@[i]).session_live
                    && self.mounts@[i].held && self.mounts@[i].state@.owns_visible(uid@),
    {
        let mut i: usize = 0;
        while i < self.mounts.len()
            invariant
                i <= self.mounts@.len(),
                forall|k: int|
                    0 <= k < i ==> !((#[trigger] self.mounts@[k]).session_live
                        && self.mounts@[k].held && self.mounts@[k].state@.owns_visible(uid@)),
            decreases self.mounts@.len() - i,
        {
            let m = &self.mounts[i];
            if m.session_live && m.held && m.state.owns_visible_uid(uid) {
                return true;
            }
            i = i + 1;
        }
        false
    }
}

/// What is live are the mounts that somebody still holds, in order.
pub proof fn law_held_mounts_stay<S>(mounts: Seq<MountedState<S>>)
    ensures
        held_mounts(mounts) == mounts.filter(|m: MountedState<S>| m.held),
    decreases mounts.len(),
{
    reveal(Seq::filter);
    if mounts.len() > 0 {
        law_held_mounts_stay(mounts.drop_last());
    }
}

/// A path is served only by a mount that is held, that runs, and whose mountpoint it lies
/// below; and by one wherever there is one.
pub proof fn law_paths_are_served_from_above<S>(mounts: Seq<MountedState<S>>, path: Seq<char>)
    ensures
        match covering_in(mounts, path) {
            Some(b) => 0 <= b < mounts.len() && mounts[b].held && mounts[b].session_live
                && path_components(mounts[b].mountpoint@).is_prefix_of(path_components(path))
                && forall|i: int|
                0 <= i < mounts.len() && (#[trigger] mounts[i]).held && mounts[i].session_live
                    && path_components(mounts[i].mountpoint@).is_prefix_of(path_components(path))
                    ==> path_components(mounts[i].mountpoint@).len() <= path_components(
                    mounts[b].mountpoint@,
                ).len(),
            None => forall|i: int|
                0 <= i < mounts.len() ==> !((#[trigger] mounts[i]).held && mounts[i].session_live
                    && path_components(mounts[i].mountpoint@).is_prefix_of(path_components(path))),
        },
    decreases mounts.len(),
{
    if mounts.len() > 0 {
        let rest = mounts.drop_last();
        law_paths_are_served_from_above(rest, path);
        assert(forall|i: int| 0 <= i < rest.len() ==> #[trigger] rest[i] == mounts[i]);
        assert forall|i: int| 0 <= i < mounts.len() - 1 implies #[trigger] mounts[i] == rest[i] by {}
    }
}

} // verus!

//! Changes this daemon made on the remote itself, awaiting their echo.
//!
//! The event feed replays our own changes and nothing in an event tells them
//! from somebody else's. Each change we make is therefore owed one echo, which
//! is consumed instead of applied, and only for a limited time.

use crate::uid::{NodeUid, Uid};
use crate::uidmap::UidMap;
use vstd::prelude::*;

verus! {

/// How long a change this daemon made stays recognisable as its own.
pub const SELF_CHANGE_TTL_MS: i64 = 120_000;

/// A remote change this daemon made.
#[derive(Clone, Copy, Debug, PartialEq, Eq)]
pub struct SelfChange {
    /// When it was made, in epoch milliseconds.
    pub at_ms: i64,
    /// Echoes not yet seen.
    pub echoes: u32,
}

/// Whether a change made at `at_ms` can still be attributed at `now_ms`.
pub open spec fn attributable(at_ms: i64, now_ms: i64) -> bool {
    now_ms - at_ms < SELF_CHANGE_TTL_MS
}

/// Every change on record is owed an echo.
pub open spec fn echoes_owed(m: Map<Uid, SelfChange>) -> bool {
    forall|u: Uid| #[trigger] m.contains_key(u) ==> m[u].echoes > 0
}

/// The changes that can still be attributed.
pub open spec fn pruned(m: Map<Uid, SelfChange>, now_ms: i64) -> Map<Uid, SelfChange> {
    Map::new(|u: Uid| m.contains_key(u) && attributable(m[u].at_ms, now_ms), |u: Uid| m[u])
}

/// The record after one more change to `uid`: what is too old goes, and the
/// node is owed one echo more.
pub open spec fn noted(m: Map<Uid, SelfChange>, uid: Uid, now_ms: i64) -> Map<Uid, SelfChange> {
    let p = pruned(m, now_ms);
    p.insert(
        uid,
        SelfChange {
            at_ms: now_ms,
            echoes: if p.contains_key(uid) {
                (p[uid].echoes + 1) as u32
            } else {
                1
            },
        },
    )
}

/// Whether an event for `uid` is an echo.
pub open spec fn is_echo(m: Map<Uid, SelfChange>, uid: Uid, now_ms: i64) -> bool {
    m.contains_key(uid) && attributable(m[uid].at_ms, now_ms)
}

/// The record after an event for `uid` was looked up.
pub open spec fn claimed(m: Map<Uid, SelfChange>, uid: Uid, now_ms: i64) -> Map<Uid, SelfChange> {
    if !m.contains_key(uid) {
        m
    } else if !is_echo(m, uid, now_ms) || m[uid].echoes == 1 {
        m.remove(uid)
    } else {
        m.insert(uid, SelfChange { echoes: (m[uid].echoes - 1) as u32, ..m[uid] })
    }
}

fn is_attributable(at_ms: i64, now_ms: i64) -> (r: bool)
    ensures
        r == attributable(at_ms, now_ms),
{
    (now_ms as i128) - (at_ms as i128) < SELF_CHANGE_TTL_MS as i128
}

fn prune(changes: &UidMap<SelfChange>, now_ms: i64) -> (out: UidMap<SelfChange>)
    ensures
        out@ == pruned(changes@, now_ms),
{
    let mut out: UidMap<SelfChange> = UidMap::new();
    let n = changes.walk();
    let ghost keys = changes.keys();
    let mut i: usize = 0;
    while i < n
        invariant
            i <= n,
            n == keys.len(),
            keys == changes.keys(),
            keys.no_duplicates(),
            forall|u: Uid| #[trigger]
                out@.contains_key(u) <==> keys.take(i as int).contains(u) && attributable(
                    changes@[u].at_ms,
                    now_ms,
                ),
            forall|u: Uid| #[trigger] out@.contains_key(u) ==> out@[u] == changes@[u],
        decreases n - i,
    {
        let (uid, change) = changes.pair_at(i);
        proof {
            let a = keys.take(i as int);
            let b = keys.take(i + 1);
            assert(b =~= a.push(keys[i as int]));
            assert forall|u: Uid| #[trigger] b.contains(u) <==> a.contains(u) || u
                == keys[i as int] by {
                if a.contains(u) {
                    let k = choose|k: int| 0 <= k < a.len() && a[k] == u;
                    assert(b[k] == u);
                }
                if u == keys[i as int] {
                    assert(b[i as int] == u);
                }
                if b.contains(u) {
                    let k = choose|k: int| 0 <= k < b.len() && b[k] == u;
                    if k < i {
                        assert(a[k] == u);
                    }
                }
            }
        }
        if is_attributable(change.at_ms, now_ms) {
            out.insert(uid.clone(), *change);
        }
        i = i + 1;
    }
    proof {
        assert(keys.take(i as int) =~= keys);
        assert(out@ =~= pruned(changes@, now_ms));
    }
    out
}

/// Record one remote change this daemon made.
pub fn note_self_change(changes: &mut UidMap<SelfChange>, uid: &NodeUid, now_ms: i64)
    requires
        old(changes)@.contains_key(uid@) ==> old(changes)@[uid@].echoes < u32::MAX,
    ensures
        final(changes)@ == noted(old(changes)@, uid@, now_ms),
        echoes_owed(old(changes)@) ==> echoes_owed(final(changes)@),
{
    let mut kept = prune(changes, now_ms);
    let echoes: u32 = match kept.get(uid) {
        Some(c) => c.echoes + 1,
        None => 1,
    };
    kept.insert(uid.clone(), SelfChange { at_ms: now_ms, echoes });
    *changes = kept;
}

/// Claim one echo: whether this event is one that this daemon caused. An event
/// that comes too late is nobody's echo.
pub fn take_self_change(changes: &mut UidMap<SelfChange>, uid: &NodeUid, now_ms: i64) -> (r: bool)
    requires
        echoes_owed(old(changes)@),
    ensures
        final(changes)@ == claimed(old(changes)@, uid@, now_ms),
        r == is_echo(old(changes)@, uid@, now_ms),
        echoes_owed(final(changes)@),
{
    let change: SelfChange = match changes.get(uid) {
        None => {
            return false;
        },
        Some(c) => *c,
    };
    assert(changes@.contains_key(uid@));
    if !is_attributable(change.at_ms, now_ms) {
        let _ = changes.remove(uid);
        return false;
    }
    if change.echoes == 1 {
        let _ = changes.remove(uid);
    } else {
        changes.insert(
            uid.clone(),
            SelfChange { at_ms: change.at_ms, echoes: change.echoes - 1 },
        );
    }
    true
}

/// A change that was noted is claimed once: the first event within the time is
/// an echo, and where nothing else was owed the next one is not.
pub proof fn law_noted_then_claimed(m: Map<Uid, SelfChange>, uid: Uid, t0: i64, t1: i64, t2: i64)
    requires
        echoes_owed(m),
        m.contains_key(uid) ==> m[uid].echoes < u32::MAX,
        t1 - t0 < SELF_CHANGE_TTL_MS,
    ensures
        is_echo(noted(m, uid, t0), uid, t1),
        !pruned(m, t0).contains_key(uid) ==> !is_echo(
            claimed(noted(m, uid, t0), uid, t1),
            uid,
            t2,
        ),
{
}

/// Claiming for one node leaves what every other node is owed alone.
pub proof fn law_claim_is_per_node(m: Map<Uid, SelfChange>, uid: Uid, other: Uid, now: i64, at: i64)
    requires
        uid != other,
    ensures
        is_echo(claimed(m, uid, now), other, at) == is_echo(m, other, at),
{
}

/// Past its time a change is attributed to nobody, and its record is gone.
pub proof fn law_late_event_is_foreign(m: Map<Uid, SelfChange>, uid: Uid, now: i64)
    requires
        m.contains_key(uid),
        now - m[uid].at_ms >= SELF_CHANGE_TTL_MS,
    ensures
        !is_echo(m, uid, now),
        !claimed(m, uid, now).contains_key(uid),
{
}

/// Noting a change leaves the other changes that can still be claimed as they are, and drops
/// those that cannot.
pub proof fn law_noting_keeps_other_changes(
    m: Map<Uid, SelfChange>,
    uid: Uid,
    other: Uid,
    now: i64,
)
    requires
        other != uid,
    ensures
        noted(m, uid, now).contains_key(uid) && noted(m, uid, now)[uid].at_ms == now,
        noted(m, uid, now).contains_key(other) <==> m.contains_key(other) && now - m[other].at_ms
            < SELF_CHANGE_TTL_MS,
        noted(m, uid, now).contains_key(other) ==> noted(m, uid, now)[other] == m[other],
{
}

/// Each change that is noted can be claimed once: a claim takes one echo, and the last one
/// takes the change.
pub proof fn law_claims_count_down(m: Map<Uid, SelfChange>, uid: Uid, now: i64)
    requires
        m.contains_key(uid),
        m[uid].echoes > 0,
        now - m[uid].at_ms < SELF_CHANGE_TTL_MS,
    ensures
        is_echo(m, uid, now),
        m[uid].echoes > 1 ==> claimed(m, uid, now).contains_key(uid) && claimed(
            m,
            uid,
            now,
        )[uid].echoes == m[uid].echoes - 1 && claimed(m, uid, now)[uid].at_ms == m[uid].at_ms,
        m[uid].echoes == 1 ==> !claimed(m, uid, now).contains_key(uid),
{
}

} // verus!

//! How far the running passes over the synced folders are.

use crate::devices::{SyncPhase, SyncProgress};
use std::collections::HashMap;
use vstd::prelude::*;

verus! {

broadcast use vstd::std_specs::hash::group_hash_axioms;

/// What is known of the running passes, by folder.
pub struct Passes {
    pub live: HashMap<i64, SyncProgress>,
}

/// The passes after the one of a folder, if it is running, was changed to `p`.
pub open spec fn changed(
    live: Map<i64, SyncProgress>,
    id: i64,
    f: spec_fn(SyncProgress, SyncProgress) -> bool,
    after: Map<i64, SyncProgress>,
) -> bool {
    if live.contains_key(id) {
        after.contains_key(id) && f(live[id], after[id]) && after == live.insert(id, after[id])
    } else {
        after == live
    }
}

impl Passes {
    pub fn new() -> (r: Self)
        ensures
            r.live@ == Map::<i64, SyncProgress>::empty(),
    {
        Passes { live: HashMap::new() }
    }

    /// Start to follow a pass: it is looking for changes.
    pub fn progress_begin(&mut self, id: i64)
        ensures
            final(self).live@.contains_key(id),
            ({
                let p = final(self).live@[id];
                p.phase is Scanning && p.done == 0 && p.total == 0 && p.current@.len() == 0
            }),
            final(self).live@ == old(self).live@.insert(id, final(self).live@[id]),
    {
        let p = SyncProgress {
            phase: SyncPhase::Scanning,
            done: 0,
            total: 0,
            current: String::new(),
        };
        self.live.insert(id, p);
    }

    /// Set how many items the scan expects.
    pub fn progress_scan_total(&mut self, id: i64, n: u64)
        ensures
            changed(
                old(self).live@,
                id,
                |a: SyncProgress, b: SyncProgress| b == (SyncProgress { total: n, ..a }),
                final(self).live@,
            ),
    {
        if let Some(p) = self.live.remove(&id) {
            let mut p = p;
            p.total = n;
            self.live.insert(id, p);
        }
        assert(self.live@ =~= old(self).live@ || self.live@ =~= old(self).live@.insert(
            id,
            self.live@[id],
        ));
    }

    /// Note that the scan looked at one more item.
    pub fn progress_scanned(&mut self, id: i64, name: &String)
        requires
            old(self).live@.contains_key(id) ==> old(self).live@[id].done < u64::MAX,
        ensures
            changed(
                old(self).live@,
                id,
                |a: SyncProgress, b: SyncProgress|
                    b == (SyncProgress { done: (a.done + 1) as u64, current: *name, ..a }),
                final(self).live@,
            ),
    {
        if let Some(p) = self.live.remove(&id) {
            let mut p = p;
            p.done = p.done + 1;
            p.current = name.clone();
            self.live.insert(id, p);
        }
        assert(self.live@ =~= old(self).live@ || self.live@ =~= old(self).live@.insert(
            id,
            self.live@[id],
        ));
    }

    /// Note that `n` more items are to be applied. The counts of the scan are dropped:
    /// they measured something else.
    pub fn progress_queued(&mut self, id: i64, n: u64)
        requires
            old(self).live@.contains_key(id) && old(self).live@[id].phase is Applying ==> old(
                self,
            ).live@[id].total + n <= u64::MAX,
        ensures
            changed(
                old(self).live@,
                id,
                |a: SyncProgress, b: SyncProgress|
                    b.phase is Applying && if a.phase is Scanning {
                        b.done == 0 && b.total == n && b.current@.len() == 0
                    } else {
                        b == (SyncProgress { total: (a.total + n) as u64, ..a })
                    },
                final(self).live@,
            ),
    {
        if let Some(p) = self.live.remove(&id) {
            let mut p = p;
            if p.phase == SyncPhase::Scanning {
                p.phase = SyncPhase::Applying;
                p.done = 0;
                p.total = 0;
                p.current = String::new();
            }
            p.total = p.total + n;
            self.live.insert(id, p);
        }
        assert(self.live@ =~= old(self).live@ || self.live@ =~= old(self).live@.insert(
            id,
            self.live@[id],
        ));
    }

    /// Note that work on an item has started.
    pub fn progress_started(&mut self, id: i64, name: &String)
        ensures
            changed(
                old(self).live@,
                id,
                |a: SyncProgress, b: SyncProgress| b == (SyncProgress { current: *name, ..a }),
                final(self).live@,
            ),
    {
        if let Some(p) = self.live.remove(&id) {
            let mut p = p;
            p.current = name.clone();
            self.live.insert(id, p);
        }
        assert(self.live@ =~= old(self).live@ || self.live@ =~= old(self).live@.insert(
            id,
            self.live@[id],
        ));
    }

    /// Note that an item is finished, whether it went well or not.
    pub fn progress_finished(&mut self, id: i64)
        requires
            old(self).live@.contains_key(id) ==> old(self).live@[id].done < u64::MAX,
        ensures
            changed(
                old(self).live@,
                id,
                |a: SyncProgress, b: SyncProgress|
                    b.phase == a.phase && b.done == a.done + 1 && b.total == a.total
                        && b.current@.len() == 0,
                final(self).live@,
            ),
    {
        if let Some(p) = self.live.remove(&id) {
            let mut p = p;
            p.done = p.done + 1;
            p.current = String::new();
            self.live.insert(id, p);
        }
        assert(self.live@ =~= old(self).live@ || self.live@ =~= old(self).live@.insert(
            id,
            self.live@[id],
        ));
    }

    /// Stop following a pass.
    pub fn progress_end(&mut self, id: i64)
        ensures
            final(self).live@ == old(self).live@.remove(id),
    {
        self.live.remove(&id);
        assert(self.live@ =~= old(self).live@.remove(id));
    }
}

/// What is told of one pass changes no other, and tells nothing of a pass that is not under
/// way.
pub proof fn law_passes_change_alone(
    live: Map<i64, SyncProgress>,
    id: i64,
    f: spec_fn(SyncProgress, SyncProgress) -> bool,
    after: Map<i64, SyncProgress>,
    other: i64,
)
    requires
        changed(live, id, f, after),
    ensures
        other != id || !live.contains_key(id) ==> (after.contains_key(other)
            <==> live.contains_key(other)) && (live.contains_key(other) ==> after[other]
            == live[other]),
        live.contains_key(id) ==> after.contains_key(id) && f(live[id], after[id]),
{
}

} // verus!

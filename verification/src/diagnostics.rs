//! What the daemon is doing right now.

use crate::lists::{first_where, lemma_first_where};
use crate::sorting::{
    law_stable_sort_sorts, lemma_sort_has, sort_stable, stable_sort, strict_weak,
};
use crate::text::{
    chars_of, find_char, first_index, is_white_space, lemma_first_index, parse_u64, split, split_on,
    string_between, trim, trim_start, trimmed, u64_written, white_space,
};
use vstd::prelude::*;

verus! {

/// Start the clock of the daemon's uptime, unless it runs already.
pub fn start_clock(started: &mut Option<u64>, now: u64)
    ensures
        *final(started) == (match *old(started) {
            Some(t) => Some(t),
            None => Some(now),
        }),
{
    if started.is_none() {
        *started = Some(now);
    }
}

/// A control request that is being served: its ticket, its kind, and when it came.
#[derive(Debug)]
pub struct InflightEntry {
    pub ticket: u64,
    pub kind: String,
    pub since: u64,
}

/// The control requests that are being served.
#[derive(Debug)]
pub struct Inflight {
    pub entries: Vec<InflightEntry>,
    pub next: u64,
}

/// Holds a control request in the list of those being served.
#[derive(Debug)]
pub struct InflightGuard(pub u64);

/// The entries without the one of a ticket.
pub open spec fn without_ticket(entries: Seq<InflightEntry>, ticket: u64) -> Seq<InflightEntry>
    decreases entries.len(),
{
    if entries.len() == 0 {
        seq![]
    } else if entries.last().ticket == ticket {
        without_ticket(entries.drop_last(), ticket)
    } else {
        without_ticket(entries.drop_last(), ticket).push(entries.last())
    }
}

/// Whether the tickets are told apart, and all below `next`.
pub open spec fn tickets_differ(entries: Seq<InflightEntry>, next: u64) -> bool {
    &&& forall|i: int| 0 <= i < entries.len() ==> (#[trigger] entries[i]).ticket < next
    &&& forall|i: int, j: int|
        0 <= i < j < entries.len() ==> (#[trigger] entries[i]).ticket != (
        #[trigger] entries[j]).ticket
}

impl InflightGuard {
    /// Note that a request is being served.
    pub fn new(inflight: &mut Inflight, kind: String, now: u64) -> (r: InflightGuard)
        requires
            old(inflight).next < u64::MAX,
            old(inflight).wf(),
        ensures
            final(inflight).wf(),
            r.0 == old(inflight).next,
            final(inflight).next == old(inflight).next + 1,
            final(inflight).entries@ == old(inflight).entries@.push(
                InflightEntry { ticket: r.0, kind, since: now },
            ),
    {
        let ticket: u64 = inflight.next;
        inflight.next = ticket + 1;
        inflight.entries.push(InflightEntry { ticket, kind, since: now });
        InflightGuard(ticket)
    }
}

impl Inflight {
    /// The tickets of those being served are told apart, and none is handed out again.
    pub open spec fn wf(&self) -> bool {
        tickets_differ(self.entries@, self.next)
    }

    pub fn new() -> (r: Self)
        ensures
            r.wf(),
            r.entries@.len() == 0,
            r.next == 0,
    {
        Inflight { entries: Vec::new(), next: 0 }
    }

    /// Note that a request was served.
    pub fn release(&mut self, guard: InflightGuard)
        requires
            old(self).wf(),
        ensures
            final(self).wf(),
            final(self).entries@ == without_ticket(old(self).entries@, guard.0),
            final(self).next == old(self).next,
    {
        let ghost all = self.entries@;
        let mut kept: Vec<InflightEntry> = Vec::new();
        let ghost mut i: int = 0;
        assert(all.take(0) =~= Seq::<InflightEntry>::empty());
        assert(all.skip(0) =~= all);
        while self.entries.len() > 0
            invariant
                0 <= i <= all.len(),
                self.entries@ == all.skip(i),
                self.next == old(self).next,
                kept@ == without_ticket(all.take(i), guard.0),
            decreases self.entries@.len(),
        {
            let e = self.entries.remove(0);
            proof {
                assert(e == all[i]);
                assert(self.entries@ =~= all.skip(i + 1));
                assert(all.take(i + 1).drop_last() =~= all.take(i));
                assert(all.take(i + 1).last() == e);
                i = i + 1;
            }
            if e.ticket != guard.0 {
                kept.push(e);
            }
        }
        assert(all.take(i) =~= all);
        proof {
            lemma_without_differs(all, guard.0, self.next);
        }
        self.entries = kept;
    }
}

/// A request is listed for as long as it is held, and no longer: taking its guard
/// and giving it back leaves the list as it was.
pub proof fn law_guard_leaves_nothing_behind(before: Inflight, kind: String, since: u64)
    requires
        before.wf(),
    ensures
        without_ticket(
            before.entries@.push(InflightEntry { ticket: before.next, kind, since }),
            before.next,
        ) == before.entries@,
{
    let e = InflightEntry { ticket: before.next, kind, since };
    assert(before.entries@.push(e).drop_last() =~= before.entries@);
    lemma_without_absent(before.entries@, before.next);
}

proof fn lemma_without_differs(s: Seq<InflightEntry>, ticket: u64, next: u64)
    requires
        tickets_differ(s, next),
    ensures
        tickets_differ(without_ticket(s, ticket), next),
        forall|i: int|
            0 <= i < without_ticket(s, ticket).len() ==> s.contains(
                #[trigger] without_ticket(s, ticket)[i],
            ),
    decreases s.len(),
{
    if s.len() > 0 {
        let rest = s.drop_last();
        let less = without_ticket(rest, ticket);
        let all = without_ticket(s, ticket);
        assert(tickets_differ(rest, next)) by {
            assert forall|i: int| 0 <= i < rest.len() implies (#[trigger] rest[i]).ticket
                < next by {
                assert(rest[i] == s[i]);
            }
            assert forall|i: int, j: int| 0 <= i < j < rest.len() implies (#[trigger] rest[i]).ticket
                != (#[trigger] rest[j]).ticket by {
                assert(rest[i] == s[i] && rest[j] == s[j]);
            }
        }
        lemma_without_differs(rest, ticket, next);
        assert forall|i: int| 0 <= i < less.len() implies s.contains(#[trigger] less[i])
            && less[i].ticket != s.last().ticket by {
            assert(rest.contains(less[i]));
            let k = choose|k: int| 0 <= k < rest.len() && rest[k] == less[i];
            assert(s[k] == less[i]);
            assert(s[s.len() - 1] == s.last());
        }
        assert(s[s.len() - 1] == s.last());
        assert(s.contains(s.last()));
        assert forall|i: int| 0 <= i < all.len() implies s.contains(#[trigger] all[i]) by {
            if i < less.len() {
                assert(all[i] == less[i]);
            }
        }
        assert forall|i: int, j: int| 0 <= i < j < all.len() implies (#[trigger] all[i]).ticket
            != (#[trigger] all[j]).ticket by {
            assert(all[i] == less[i]);
            if j < less.len() {
                assert(all[j] == less[j]);
            }
        }
    }
}

proof fn lemma_without_absent(s: Seq<InflightEntry>, ticket: u64)
    requires
        forall|i: int| 0 <= i < s.len() ==> (#[trigger] s[i]).ticket != ticket,
    ensures
        without_ticket(s, ticket) == s,
    decreases s.len(),
{
    if s.len() > 0 {
        let rest = s.drop_last();
        assert forall|i: int| 0 <= i < rest.len() implies (#[trigger] rest[i]).ticket != ticket by {
            assert(s[i] == rest[i]);
        }
        lemma_without_absent(rest, ticket);
        assert(rest.push(s.last()) =~= s);
    } else {
        assert(without_ticket(s, ticket) =~= s);
    }
}

/// What comes before the first quote, or everything where there is none.
pub open spec fn before_quote(s: Seq<char>) -> Seq<char> {
    s.take(first_index(s, '"'))
}

/// The kind of a request, as it stands on the wire: a bare quoted name, or an object
/// whose first key is the name.
pub open spec fn kind_of(line: Seq<char>) -> Seq<char> {
    let t = trim(line);
    let body = if t.len() > 0 && t[0] == '{' {
        trim_start(t.skip(1))
    } else {
        t
    };
    if body.len() > 0 && body[0] == '"' {
        before_quote(body.skip(1))
    } else {
        "unknown"@
    }
}

fn skip_white(v: &Vec<char>, from: usize) -> (r: usize)
    requires
        from <= v@.len(),
    ensures
        from <= r <= v@.len(),
        trim_start(v@.skip(from as int)) == v@.skip(r as int),
        forall|k: int| from <= k < r ==> is_white_space(#[trigger] v@[k]),
        r < v@.len() ==> !is_white_space(v@[r as int]),
{
    let mut i: usize = from;
    while i < v.len() && white_space(v[i])
        invariant
            from <= i <= v@.len(),
            trim_start(v@.skip(from as int)) == trim_start(v@.skip(i as int)),
            forall|k: int| from <= k < i ==> is_white_space(#[trigger] v@[k]),
        decreases v@.len() - i,
    {
        assert(v@.skip(i as int)[0] == v@[i as int]);
        assert(v@.skip(i as int).skip(1) =~= v@.skip(i + 1));
        i = i + 1;
    }
    proof {
        if i < v@.len() {
            assert(v@.skip(i as int)[0] == v@[i as int]);
        }
        assert(trim_start(v@.skip(i as int)) =~= v@.skip(i as int));
    }
    i
}

fn text_before_quote(v: &Vec<char>, from: usize) -> (r: String)
    requires
        from <= v@.len(),
    ensures
        r@ == before_quote(v@.skip(from as int)),
{
    let rest = string_between(v, from, v.len());
    let w = chars_of(rest.as_str());
    assert(w@ =~= v@.skip(from as int));
    match find_char(&w, '"') {
        Some(i) => {
            let r = string_between(&w, 0, i);
            proof {
                lemma_first_index(w@, '"');
                assert(r@ =~= w@.take(i as int));
            }
            r
        },
        None => {
            proof {
                lemma_first_index(w@, '"');
                assert(w@.take(w@.len() as int) =~= w@);
            }
            rest
        },
    }
}

/// The kind of a request, read off its line without parsing it.
pub fn request_kind(line: &str) -> (r: String)
    ensures
        r@ == kind_of(line@),
{
    let t = trimmed(line);
    let v = chars_of(t.as_str());
    assert(v@.skip(0) =~= v@);
    let mut at: usize = 0;
    if v.len() > 0 && v[0] == '{' {
        at = skip_white(&v, 1);
    }
    proof {
        let body = v@.skip(at as int);
        assert(body.len() > 0 ==> body[0] == v@[at as int]);
        if body.len() > 0 {
            assert(body.skip(1) =~= v@.skip(at + 1));
        }
    }
    if at < v.len() && v[at] == '"' {
        return text_before_quote(&v, at + 1);
    }
    "unknown".to_owned()
}

/// The first word of a text.
pub open spec fn first_word(s: Seq<char>) -> Seq<char> {
    until_white(trim_start(s))
}

/// What comes before the first white space.
pub open spec fn until_white(s: Seq<char>) -> Seq<char>
    decreases s.len(),
{
    if s.len() == 0 || is_white_space(s[0]) {
        seq![]
    } else {
        seq![s[0]] + until_white(s.skip(1))
    }
}

proof fn lemma_until_white(s: Seq<char>, n: int)
    requires
        0 <= n <= s.len(),
        forall|k: int| 0 <= k < n ==> !is_white_space(#[trigger] s[k]),
        n < s.len() ==> is_white_space(s[n]),
    ensures
        until_white(s) == s.take(n),
    decreases n,
{
    if n == 0 {
        assert(s.take(0) =~= Seq::<char>::empty());
    } else {
        let t = s.skip(1);
        assert forall|k: int| 0 <= k < n - 1 implies !is_white_space(#[trigger] t[k]) by {
            assert(t[k] == s[k + 1]);
        }
        if n < s.len() {
            assert(t[n - 1] == s[n]);
        }
        lemma_until_white(t, n - 1);
        assert(seq![s[0]] + t.take(n - 1) =~= s.take(n));
    }
}

/// What a line of the status is about, when it tells the resident size.
pub open spec fn rss_label() -> Seq<char> {
    "VmRSS:"@
}

/// The line of the status that tells the resident size.
pub open spec fn rss_line(status: Seq<char>) -> Option<Seq<char>> {
    first_where(split(status, '\n'), |l: Seq<char>| rss_label().is_prefix_of(l))
}

/// The resident size in bytes: the number of the first line with that label, which
/// counts kilobytes. Without a number it is nothing.
pub open spec fn rss_of(status: Seq<char>) -> nat {
    match rss_line(status) {
        None => 0,
        Some(line) => match u64_written(first_word(line.skip(rss_label().len() as int))) {
            None => 0,
            Some(kb) => if kb * 1024 > u64::MAX {
                u64::MAX as nat
            } else {
                (kb * 1024) as nat
            },
        },
    }
}

/// The resident size in bytes that a process status tells.
pub fn parse_vm_rss(status: &str) -> (r: u64)
    ensures
        r == rss_of(status@),
{
    let lines = split_on(status, '\n');
    let label = chars_of("VmRSS:");
    let ghost all = split(status@, '\n');
    let ghost p = |l: Seq<char>| rss_label().is_prefix_of(l);
    let mut i: usize = 0;
    assert(all.skip(0) =~= all);
    while i < lines.len()
        invariant
            i <= lines@.len(),
            label@ == rss_label(),
            all == split(status@, '\n'),
            lines@.map_values(|s: String| s@) == all,
            p == (|l: Seq<char>| rss_label().is_prefix_of(l)),
            first_where(all, p) == first_where(all.skip(i as int), p),
        decreases lines@.len() - i,
    {
        let v = chars_of(lines[i].as_str());
        proof {
            assert(all.len() == lines@.len());
            assert(all[i as int] == lines@[i as int]@);
            lemma_first_where(all, p, i as int);
        }
        if crate::text::starts_with(&v, &label) {
            let n: usize = label.len();
            let start = skip_white(&v, n);
            let mut end: usize = start;
            while end < v.len() && !white_space(v[end])
                invariant
                    start <= end <= v@.len(),
                    forall|k: int| start <= k < end ==> !is_white_space(#[trigger] v@[k]),
                decreases v@.len() - end,
            {
                end = end + 1;
            }
            let word = string_between(&v, start, end);
            let w = chars_of(word.as_str());
            proof {
                let rest = v@.skip(start as int);
                assert forall|k: int| 0 <= k < end - start implies !is_white_space(
                    #[trigger] rest[k],
                ) by {
                    assert(rest[k] == v@[start + k]);
                }
                if end < v@.len() {
                    assert(rest[end - start] == v@[end as int]);
                }
                lemma_until_white(rest, end - start);
                assert(w@ =~= rest.take(end - start));
                assert(w@ == first_word(v@.skip(n as int)));
            }
            return match parse_u64(&w) {
                None => 0,
                Some(kb) => if kb > u64::MAX / 1024 {
                    u64::MAX
                } else {
                    kb * 1024
                },
            };
        }
        i = i + 1;
    }
    0
}

/// A request that is being served, as it is reported.
#[derive(Debug)]
pub struct InflightRequest {
    pub kind: String,
    pub age_secs: u64,
}

/// The oldest first.
pub open spec fn older() -> spec_fn(InflightRequest, InflightRequest) -> bool {
    |a: InflightRequest, b: InflightRequest| a.age_secs > b.age_secs
}

/// How long a request has been served, in whole seconds.
pub open spec fn age_of(since: u64, now: u64) -> nat {
    if now < since {
        0
    } else {
        ((now - since) / 1000) as nat
    }
}

/// How an entry is reported.
pub open spec fn report_of(e: InflightEntry, now: u64) -> InflightRequest {
    InflightRequest { kind: e.kind, age_secs: age_of(e.since, now) as u64 }
}

/// The entries as they are reported, in their order.
pub open spec fn reports(entries: Seq<InflightEntry>, now: u64) -> Seq<InflightRequest> {
    entries.map_values(|e: InflightEntry| report_of(e, now))
}

/// The requests that are being served, the oldest first. Where the list cannot be
/// looked at there are none.
pub open spec fn inflight_of(inflight: Option<&Inflight>, now: u64) -> Seq<InflightRequest> {
    match inflight {
        None => seq![],
        Some(i) => stable_sort(reports(i.entries@, now), older()),
    }
}

/// The requests that are being served, the oldest first. Where the list cannot be
/// looked at there are none.
pub fn inflight_report(inflight: Option<&Inflight>, now: u64) -> (r: Vec<InflightRequest>)
    ensures
        r@ == inflight_of(inflight, now),
{
    let mut rows: Vec<InflightRequest> = Vec::new();
    let list = match inflight {
        None => {
            assert(rows@ =~= Seq::<InflightRequest>::empty());
            return rows;
        },
        Some(l) => l,
    };
    let mut i: usize = 0;
    assert(reports(list.entries@.take(0), now) =~= rows@);
    while i < list.entries.len()
        invariant
            i <= list.entries@.len(),
            rows@ == reports(list.entries@.take(i as int), now),
        decreases list.entries@.len() - i,
    {
        let e = &list.entries[i];
        let age: u64 = if now < e.since {
            0
        } else {
            (now - e.since) / 1000
        };
        rows.push(InflightRequest { kind: e.kind.clone(), age_secs: age });
        assert(rows@ =~= reports(list.entries@.take(i + 1), now));
        i = i + 1;
    }
    assert(list.entries@.take(i as int) =~= list.entries@);
    let less = |a: &InflightRequest, b: &InflightRequest| -> (x: bool)
        ensures
            x == (a.age_secs > b.age_secs),
        { a.age_secs > b.age_secs };
    sort_stable(rows, less, Ghost(older()))
}

/// The number of queued changes.
pub open spec fn pending_of(counts: Option<(i64, i64)>) -> int {
    match counts {
        None => 0,
        Some((uploads, changes)) => (if uploads < 0 {
            0
        } else {
            uploads as int
        }) + (if changes < 0 {
            0
        } else {
            changes as int
        }),
    }
}

/// The number of queued changes: uploads and the rest, where a negative count is
/// nothing. A database that does not answer in time is nothing too.
pub fn pending_ops_quickly(counts: Option<(i64, i64)>) -> (r: u64)
    ensures
        r == pending_of(counts),
{
    match counts {
        None => 0,
        Some((uploads, changes)) => {
            let a: u64 = if uploads < 0 {
                0
            } else {
                uploads as u64
            };
            let b: u64 = if changes < 0 {
                0
            } else {
                changes as u64
            };
            a + b
        },
    }
}

/// A worker as the pool tells of it.
#[derive(Debug)]
pub struct PoolWorker {
    pub name: String,
    pub busy: bool,
    pub label: String,
    pub age_ms: u64,
}

/// What the pool tells of itself.
#[derive(Debug)]
pub struct PoolSnapshot {
    pub workers: Vec<PoolWorker>,
    pub meta_queued: u64,
    pub transfer_queued: u64,
    pub meta_completed: u64,
    pub transfer_completed: u64,
}

/// A worker as it is reported: its age in whole seconds.
#[derive(Debug)]
pub struct WorkerState {
    pub name: String,
    pub busy: bool,
    pub label: String,
    pub age_secs: u64,
}

/// What the daemon is doing.
#[derive(Debug)]
pub struct Diagnostics {
    pub uptime_secs: u64,
    pub rss_bytes: u64,
    pub workers: Vec<WorkerState>,
    pub meta_queued: u64,
    pub transfer_queued: u64,
    pub meta_completed: u64,
    pub transfer_completed: u64,
    pub inflight: Vec<InflightRequest>,
    pub control_handlers: u64,
    pub control_handler_limit: u64,
    pub pending_ops: u64,
}

/// How a worker is reported.
pub open spec fn worker_state(w: PoolWorker) -> WorkerState {
    WorkerState { name: w.name, busy: w.busy, label: w.label, age_secs: w.age_ms / 1000 }
}

fn worker_states(workers: Vec<PoolWorker>) -> (r: Vec<WorkerState>)
    ensures
        r@ == workers@.map_values(|w: PoolWorker| worker_state(w)),
{
    let ghost given = workers@;
    let ghost f = |w: PoolWorker| worker_state(w);
    let mut workers = workers;
    let mut out: Vec<WorkerState> = Vec::new();
    assert(given.skip(0) =~= given);
    assert(given.take(0).map_values(f) =~= out@);
    while workers.len() > 0
        invariant
            f == (|w: PoolWorker| worker_state(w)),
            out@.len() <= given.len(),
            workers@ == given.skip(out@.len() as int),
            out@ == given.take(out@.len() as int).map_values(f),
        decreases workers@.len(),
    {
        let ghost at = out@.len() as int;
        let w = workers.remove(0);
        assert(w == given[at]);
        assert(workers@ =~= given.skip(at + 1));
        out.push(
            WorkerState { name: w.name, busy: w.busy, label: w.label, age_secs: w.age_ms / 1000 },
        );
        assert(out@ =~= given.take(at + 1).map_values(f));
    }
    assert(given.take(out@.len() as int) =~= given);
    out
}

/// Report what the daemon is doing. Times are in milliseconds of one clock; `status` is
/// the process status, where it could be read, and `counts` what is queued, where the
/// database answered in time.
pub fn diagnostics(
    pool: PoolSnapshot,
    inflight: Option<&Inflight>,
    started: u64,
    now: u64,
    status: Option<&str>,
    handlers: u64,
    handler_limit: u64,
    counts: Option<(i64, i64)>,
) -> (r: Diagnostics)
    ensures
        r.uptime_secs == age_of(started, now),
        r.rss_bytes == (match status {
            Some(s) => rss_of(s@),
            None => 0,
        }),
        r.workers@ == pool.workers@.map_values(|w: PoolWorker| worker_state(w)),
        r.meta_queued == pool.meta_queued,
        r.transfer_queued == pool.transfer_queued,
        r.meta_completed == pool.meta_completed,
        r.transfer_completed == pool.transfer_completed,
        r.inflight@ == inflight_of(inflight, now),
        r.control_handlers == handlers,
        r.control_handler_limit == handler_limit,
        r.pending_ops == pending_of(counts),
{
    let uptime_secs: u64 = if now < started {
        0
    } else {
        (now - started) / 1000
    };
    let rss_bytes: u64 = match status {
        Some(s) => parse_vm_rss(s),
        None => 0,
    };
    Diagnostics {
        uptime_secs,
        rss_bytes,
        workers: worker_states(pool.workers),
        meta_queued: pool.meta_queued,
        transfer_queued: pool.transfer_queued,
        meta_completed: pool.meta_completed,
        transfer_completed: pool.transfer_completed,
        inflight: inflight_report(inflight, now),
        control_handlers: handlers,
        control_handler_limit: handler_limit,
        pending_ops: pending_ops_quickly(counts),
    }
}

/// Giving back a ticket takes what was listed under it, and leaves all else in order.
pub proof fn law_release_takes_one_ticket(entries: Seq<InflightEntry>, ticket: u64)
    ensures
        without_ticket(entries, ticket) == entries.filter(
            |e: InflightEntry| e.ticket != ticket,
        ),
    decreases entries.len(),
{
    reveal(Seq::filter);
    if entries.len() > 0 {
        law_release_takes_one_ticket(entries.drop_last(), ticket);
    }
}

/// An age is the whole seconds since a time, and none before it.
pub proof fn law_ages_are_whole_seconds(since: u64, now: u64)
    ensures
        now <= since ==> age_of(since, now) == 0,
        now >= since ==> age_of(since, now) * 1000 <= now - since < age_of(since, now) * 1000
            + 1000,
        age_of(since, now) <= u64::MAX,
{
}

/// What is under way is told with the longest wait first, and all of it.
pub proof fn law_oldest_requests_come_first(inflight: &Inflight, now: u64)
    ensures
        ({
            let r = inflight_of(Some(inflight), now);
            &&& r.len() == inflight.entries@.len()
            &&& forall|i: int, j: int|
                0 <= i < j < r.len() ==> (#[trigger] r[i]).age_secs >= (#[trigger] r[j]).age_secs
            &&& forall|k: int|
                0 <= k < inflight.entries@.len() ==> exists|i: int|
                    0 <= i < r.len() && (#[trigger] r[i]).kind == (
                    #[trigger] inflight.entries@[k]).kind && r[i].age_secs == age_of(
                        inflight.entries@[k].since,
                        now,
                    )
        }),
        inflight_of(None, now).len() == 0,
{
    let lt = older();
    let all = reports(inflight.entries@, now);
    assert(strict_weak(lt)) by {
        assert(forall|a: InflightRequest, b: InflightRequest| #[trigger]
            lt(a, b) <==> a.age_secs > b.age_secs);
    }
    law_stable_sort_sorts(all, lt);
    lemma_sort_has(all, lt);
    let r = stable_sort(all, lt);
    assert(r == inflight_of(Some(inflight), now));
    assert forall|i: int, j: int| 0 <= i < j < r.len() implies (#[trigger] r[i]).age_secs >= (
    #[trigger] r[j]).age_secs by {
        assert(!lt(r[j], r[i]));
    }
    assert forall|k: int| 0 <= k < inflight.entries@.len() implies exists|i: int|
        0 <= i < r.len() && (#[trigger] r[i]).kind == (#[trigger] inflight.entries@[k]).kind
            && r[i].age_secs == age_of(inflight.entries@[k].since, now) by {
        assert(r.contains(all[k]));
        let i = choose|i: int| 0 <= i < r.len() && r[i] == all[k];
        assert(r[i].kind == inflight.entries@[k].kind);
        law_ages_are_whole_seconds(inflight.entries@[k].since, now);
    }
}

/// What waits is the sum of both queues, and a count below nothing counts as nothing.
pub proof fn law_pending_work_is_summed(uploads: i64, changes: i64)
    ensures
        pending_of(None) == 0,
        uploads >= 0 && changes >= 0 ==> pending_of(Some((uploads, changes))) == uploads + changes,
        uploads <= 0 && changes <= 0 ==> pending_of(Some((uploads, changes))) == 0,
        pending_of(Some((uploads, changes))) >= uploads,
        pending_of(Some((uploads, changes))) >= changes,
        0 <= pending_of(Some((uploads, changes))) <= u64::MAX,
{
}

/// The first word of a text has no white space in it, and stands before any.
pub proof fn law_first_word_is_a_word(s: Seq<char>)
    ensures
        until_white(s).is_prefix_of(s),
        forall|i: int| 0 <= i < until_white(s).len() ==> !is_white_space(#[trigger] until_white(s)[i]),
        until_white(s).len() < s.len() ==> is_white_space(s[until_white(s).len() as int]),
    decreases s.len(),
{
    if s.len() > 0 && !is_white_space(s[0]) {
        let rest = s.skip(1);
        law_first_word_is_a_word(rest);
        let w = until_white(s);
        assert(forall|i: int| 0 <= i < until_white(rest).len() ==> w[i + 1] == #[trigger] until_white(rest)[i]);
        assert forall|i: int| 0 <= i < w.len() implies !is_white_space(#[trigger] w[i]) by {
            if i > 0 {
                assert(w[i] == until_white(rest)[i - 1]);
            }
        }
        assert(w =~= s.take(w.len() as int)) by {
            assert forall|i: int| 0 <= i < w.len() implies w[i] == s[i] by {
                if i > 0 {
                    assert(w[i] == until_white(rest)[i - 1]);
                    assert(rest.take(until_white(rest).len() as int)[i - 1] == rest[i - 1]);
                }
            }
        }
        if w.len() < s.len() {
            assert(rest[until_white(rest).len() as int] == s[w.len() as int]);
        }
    }
}

/// A worker is told of as it is, its age in whole seconds.
pub proof fn law_workers_are_told_as_they_are(w: PoolWorker)
    ensures
        worker_state(w).name == w.name && worker_state(w).busy == w.busy && worker_state(w).label
            == w.label,
        worker_state(w).age_secs * 1000 <= w.age_ms < worker_state(w).age_secs * 1000 + 1000,
{
}

/// The kind of a request that names it first is that name, also where it carries nothing
/// else.
pub proof fn law_request_kind_is_its_name(line: Seq<char>, name: Seq<char>, rest: Seq<char>)
    requires
        !name.contains('"'),
    ensures
        trim(line) == seq!['{', '"'] + name + seq!['"'] + rest ==> kind_of(line) == name,
        trim(line) == seq!['"'] + name + seq!['"'] + rest ==> kind_of(line) == name,
        trim(line).len() == 0 ==> kind_of(line) == "unknown"@,
{
    let t = trim(line);
    let tail = name + seq!['"'] + rest;
    assert(before_quote(tail) =~= name) by {
        lemma_first_index(tail, '"');
        assert(tail[name.len() as int] == '"');
        assert forall|i: int| 0 <= i < name.len() implies tail[i] != '"' by {
            assert(tail[i] == name[i]);
            assert(name.contains(name[i]));
        }
    }
    if t == seq!['{', '"'] + name + seq!['"'] + rest {
        assert(t.skip(1) =~= seq!['"'] + tail);
        assert(t.skip(1)[0] == '"');
        assert(!is_white_space('"'));
        assert(trim_start(t.skip(1)) == t.skip(1));
        assert(t.skip(1).skip(1) =~= tail);
    }
    if t == seq!['"'] + name + seq!['"'] + rest {
        assert(t.skip(1) =~= tail);
    }
}

/// The memory that is told is what the first line says that tells it, in whole kilobytes; it
/// is nothing where no line does or where that is no number.
pub proof fn law_memory_is_what_the_line_says(status: Seq<char>, kb: u64)
    ensures
        rss_line(status) is None ==> rss_of(status) == 0,
        rss_line(status) is Some ==> "VmRSS:"@.is_prefix_of(rss_line(status)->0) && split(
            status,
            '\n',
        ).contains(rss_line(status)->0),
        rss_line(status) is Some && u64_written(
            first_word((rss_line(status)->0).skip("VmRSS:"@.len() as int)),
        ) == Some(kb) ==> (kb * 1024 <= u64::MAX ==> rss_of(status) == kb * 1024) && (kb * 1024
            > u64::MAX ==> rss_of(status) == u64::MAX),
        rss_line(status) is Some && u64_written(
            first_word((rss_line(status)->0).skip("VmRSS:"@.len() as int)),
        ) is None ==> rss_of(status) == 0,
{
    let lines = split(status, '\n');
    crate::lists::law_first_where(lines, |l: Seq<char>| rss_label().is_prefix_of(l));
    if rss_line(status) is Some {
        let x = rss_line(status)->0;
        let i = choose|i: int| 0 <= i < lines.len() && #[trigger] lines[i] == x;
        assert(lines[i] == x);
    }
}

} // verus!

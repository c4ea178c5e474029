//! Sets of byte offsets as sorted runs.
//!
//! A write handle records which bytes it authored; what it did not author is
//! the remote's. Runs that touch are merged, so a set has one representation.

use vstd::prelude::*;

verus! {

/// Whether one of `ranges` holds the offset `x`.
pub open spec fn covers(ranges: Seq<(u64, u64)>, x: int) -> bool {
    exists|i: int| 0 <= i < ranges.len() && (#[trigger] ranges[i]).0 <= x < ranges[i].1
}

/// Whether the runs are nonempty, in order, and apart from each other.
pub open spec fn canonical(runs: Seq<(u64, u64)>) -> bool {
    &&& forall|i: int| 0 <= i < runs.len() ==> (#[trigger] runs[i]).0 < runs[i].1
    &&& forall|i: int, j: int|
        0 <= i < j < runs.len() ==> (#[trigger] runs[i]).1 < (#[trigger] runs[j]).0
}

/// A set of byte offsets.
#[derive(Debug, PartialEq, Eq)]
pub struct Intervals {
    pub runs: Vec<(u64, u64)>,
}

impl Intervals {
    /// Whether the offset `x` is in the set.
    pub open spec fn has(self, x: int) -> bool {
        covers(self.runs@, x)
    }

    pub open spec fn wf(self) -> bool {
        canonical(self.runs@)
    }
}

impl Clone for Intervals {
    fn clone(&self) -> (r: Self)
        ensures
            r.runs@ == self.runs@,
    {
        let mut runs: Vec<(u64, u64)> = Vec::new();
        let mut i: usize = 0;
        while i < self.runs.len()
            invariant
                i <= self.runs@.len(),
                runs@ == self.runs@.take(i as int),
            decreases self.runs@.len() - i,
        {
            runs.push(self.runs[i]);
            i = i + 1;
        }
        assert(self.runs@.take(i as int) =~= self.runs@);
        Intervals { runs }
    }
}

impl Default for Intervals {
    fn default() -> (r: Self)
        ensures
            r.runs@.len() == 0,
            r.wf(),
            forall|x: int| !r.has(x),
    {
        Intervals { runs: Vec::new() }
    }
}

proof fn lemma_first_difference(a: Seq<(u64, u64)>, b: Seq<(u64, u64)>)
    requires
        canonical(a),
        canonical(b),
        a.len() > 0,
        forall|x: int| covers(a, x) == covers(b, x),
    ensures
        b.len() > 0,
        a[0] == b[0],
{
    assert(a[0].0 <= a[0].0 < a[0].1);
    assert(covers(a, a[0].0 as int));
    assert(covers(b, a[0].0 as int));
    let j = choose|j: int| 0 <= j < b.len() && (#[trigger] b[j]).0 <= a[0].0 < b[j].1;
    assert(covers(b, b[0].0 as int)) by {
        assert(b[0].0 <= b[0].0 < b[0].1);
    }
    assert(covers(a, b[0].0 as int));
    let k = choose|k: int| 0 <= k < a.len() && (#[trigger] a[k]).0 <= b[0].0 < a[k].1;
    if j > 0 {
        assert(b[0].1 < b[j].0);
    }
    if k > 0 {
        assert(a[0].1 < a[k].0);
    }
    assert(a[0].0 == b[0].0);
    if a[0].1 < b[0].1 {
        assert(covers(b, a[0].1 as int)) by {
            assert(b[0].0 <= a[0].1 < b[0].1);
        }
        assert(covers(a, a[0].1 as int));
        let m = choose|m: int| 0 <= m < a.len() && (#[trigger] a[m]).0 <= a[0].1 < a[m].1;
        if m > 0 {
            assert(a[0].1 < a[m].0);
        }
    }
    if b[0].1 < a[0].1 {
        assert(covers(a, b[0].1 as int)) by {
            assert(a[0].0 <= b[0].1 < a[0].1);
        }
        assert(covers(b, b[0].1 as int));
        let m = choose|m: int| 0 <= m < b.len() && (#[trigger] b[m]).0 <= b[0].1 < b[m].1;
        if m > 0 {
            assert(b[0].1 < b[m].0);
        }
    }
}

/// A set of offsets has one canonical list of runs.
pub proof fn law_one_representation(a: Seq<(u64, u64)>, b: Seq<(u64, u64)>)
    requires
        canonical(a),
        canonical(b),
        forall|x: int| covers(a, x) == covers(b, x),
    ensures
        a == b,
    decreases a.len() + b.len(),
{
    if a.len() == 0 {
        if b.len() > 0 {
            assert(b[0].0 <= b[0].0 < b[0].1);
            assert(covers(b, b[0].0 as int));
            assert(covers(a, b[0].0 as int));
        }
        assert(a =~= b);
    } else {
        lemma_first_difference(a, b);
        let s = a.skip(1);
        let t = b.skip(1);
        assert forall|i: int| 0 <= i < s.len() implies (#[trigger] s[i]).0 < s[i].1 by {
            assert(s[i] == a[i + 1]);
        }
        assert forall|i: int, j: int| 0 <= i < j < s.len() implies (#[trigger] s[i]).1 < (
        #[trigger] s[j]).0 by {
            assert(s[i] == a[i + 1] && s[j] == a[j + 1]);
        }
        assert forall|i: int| 0 <= i < t.len() implies (#[trigger] t[i]).0 < t[i].1 by {
            assert(t[i] == b[i + 1]);
        }
        assert forall|i: int, j: int| 0 <= i < j < t.len() implies (#[trigger] t[i]).1 < (
        #[trigger] t[j]).0 by {
            assert(t[i] == b[i + 1] && t[j] == b[j + 1]);
        }
        assert forall|x: int| covers(s, x) == covers(t, x) by {
            lemma_covers_tail(a, x);
            lemma_covers_tail(b, x);
        }
        law_one_representation(s, t);
        assert(a =~= seq![a[0]] + s);
        assert(b =~= seq![b[0]] + t);
    }
}

proof fn lemma_covers_tail(a: Seq<(u64, u64)>, x: int)
    requires
        canonical(a),
        a.len() > 0,
    ensures
        covers(a.skip(1), x) == (covers(a, x) && !(a[0].0 <= x < a[0].1)),
{
    let s = a.skip(1);
    if covers(s, x) {
        let i = choose|i: int| 0 <= i < s.len() && (#[trigger] s[i]).0 <= x < s[i].1;
        assert(a[i + 1] == s[i]);
        assert(a[0].1 < a[i + 1].0);
    }
    if covers(a, x) && !(a[0].0 <= x < a[0].1) {
        let i = choose|i: int| 0 <= i < a.len() && (#[trigger] a[i]).0 <= x < a[i].1;
        assert(s[i - 1] == a[i]);
    }
}

proof fn lemma_covers_push(a: Seq<(u64, u64)>, r: (u64, u64), x: int)
    ensures
        covers(a.push(r), x) == (covers(a, x) || r.0 <= x < r.1),
{
    let b = a.push(r);
    if covers(a, x) {
        let i = choose|i: int| 0 <= i < a.len() && (#[trigger] a[i]).0 <= x < a[i].1;
        assert(b[i] == a[i]);
    }
    if r.0 <= x < r.1 {
        assert(b[a.len() as int] == r);
    }
    if covers(b, x) {
        let i = choose|i: int| 0 <= i < b.len() && (#[trigger] b[i]).0 <= x < b[i].1;
        if i < a.len() {
            assert(a[i] == b[i]);
        }
    }
}

/// A piece of a window: its bounds, and whether its bytes were authored.
pub type Segment = (u64, u64, bool);

/// Whether `segs` cut the window from `start` to `end` into the authored and the
/// other bytes: they are nonempty, follow on each other, alternate, and each is
/// all one or all the other.
pub open spec fn cuts(segs: Seq<Segment>, start: int, end: int, runs: Seq<(u64, u64)>) -> bool {
    &&& (segs.len() == 0 ==> start == end)
    &&& (segs.len() > 0 ==> segs[0].0 == start && segs.last().1 == end)
    &&& forall|i: int| 0 <= i < segs.len() ==> (#[trigger] segs[i]).0 < segs[i].1
    &&& forall|i: int|
        0 < i < segs.len() ==> (#[trigger] segs[i]).0 == segs[i - 1].1 && segs[i].2 != segs[i
            - 1].2
    &&& forall|i: int, x: int|
        0 <= i < segs.len() && (#[trigger] segs[i]).0 <= x < segs[i].1 ==> (#[trigger] covers(
            runs,
            x,
        ) == segs[i].2)
}

impl Intervals {
    /// Add the offsets from `s` up to `e`, merging runs that touch.
    pub fn add(&mut self, s: u64, e: u64)
        requires
            old(self).wf(),
        ensures
            final(self).wf(),
            forall|x: int| #[trigger] final(self).has(x) == (old(self).has(x) || s <= x < e),
    {
        if s >= e {
            return ;
        }
        let ghost before = self.runs@;
        let mut out: Vec<(u64, u64)> = Vec::new();
        let mut lo: u64 = s;
        let mut hi: u64 = e;
        let mut i: usize = 0;
        while i < self.runs.len() && self.runs[i].1 < s
            invariant
                i <= self.runs@.len(),
                self.runs@ == before,
                canonical(before),
                out@ == before.take(i as int),
                forall|k: int| 0 <= k < i ==> (#[trigger] before[k]).1 < s,
            decreases self.runs@.len() - i,
        {
            out.push(self.runs[i]);
            i = i + 1;
        }
        let ghost first = i as int;
        let ghost head = out@;
        while i < self.runs.len() && self.runs[i].0 <= e
            invariant
                0 <= first <= i <= self.runs@.len(),
                self.runs@ == before,
                canonical(before),
                out@ == head,
                head == before.take(first),
                first < before.len() ==> before[first].1 >= s,
                lo <= s < e <= hi,
                forall|k: int| 0 <= k < first ==> (#[trigger] before[k]).1 < s,
                lo < s ==> first < before.len() && lo == before[first].0 && first < i,
                hi > e ==> first < i && hi == before[i - 1].1,
                forall|k: int|
                    first <= k < i ==> lo <= (#[trigger] before[k]).0 && before[k].1 <= hi
                        && before[k].0 <= e && before[k].1 >= s,
            decreases self.runs@.len() - i,
        {
            proof {
                if i > first {
                    assert(before[first].1 < before[i as int].0);
                }
            }
            if self.runs[i].0 < lo {
                lo = self.runs[i].0;
            }
            if self.runs[i].1 > hi {
                hi = self.runs[i].1;
            }
            i = i + 1;
        }
        let ghost last = i as int;
        out.push((lo, hi));
        proof {
            assert(forall|k: int| 0 <= k < first ==> head[k] == before[k]);
            assert(canonical(out@)) by {
                assert forall|a: int, b: int| 0 <= a < b < out@.len() implies (
                #[trigger] out@[a]).1 < (#[trigger] out@[b]).0 by {
                    if b < first {
                        assert(out@[a] == before[a] && out@[b] == before[b]);
                    } else {
                        assert(out@[a] == before[a]);
                        if lo < s {
                            assert(before[a].1 < before[first].0);
                        }
                    }
                }
                assert forall|a: int| 0 <= a < out@.len() implies (#[trigger] out@[a]).0
                    < out@[a].1 by {
                    if a < first {
                        assert(out@[a] == before[a]);
                    }
                }
            }
        }
        let ghost mid = out@;
        while i < self.runs.len()
            invariant
                0 <= first <= last <= i <= self.runs@.len(),
                self.runs@ == before,
                canonical(before),
                mid.len() == first + 1,
                mid[first] == (lo, hi),
                lo < hi,
                canonical(mid),
                forall|k: int| 0 <= k < first ==> mid[k] == before[k],
                out@ == mid + before.subrange(last, i as int),
                last < before.len() ==> hi < before[last].0,
            decreases self.runs@.len() - i,
        {
            out.push(self.runs[i]);
            i = i + 1;
            assert(before.subrange(last, i as int) =~= before.subrange(last, i - 1).push(
                before[i - 1],
            ));
            assert(out@ =~= mid + before.subrange(last, i as int));
        }
        self.runs = out;
        proof {
            let all = self.runs@;
            let tail = before.subrange(last, before.len() as int);
            assert(all == mid + tail);
            assert forall|a: int| 0 <= a < all.len() implies (#[trigger] all[a]).0 < all[a].1 by {
                if a >= mid.len() {
                    assert(all[a] == before[last + a - mid.len()]);
                } else {
                    assert(all[a] == mid[a]);
                }
            }
            assert forall|a: int, b: int| 0 <= a < b < all.len() implies (#[trigger] all[a]).1 < (
            #[trigger] all[b]).0 by {
                if b < mid.len() {
                    assert(all[a] == mid[a] && all[b] == mid[b]);
                } else {
                    let y = last + b - mid.len();
                    assert(all[b] == before[y]);
                    if a >= mid.len() {
                        assert(all[a] == before[last + a - mid.len()]);
                    } else if a < first {
                        assert(all[a] == before[a]);
                    } else {
                        assert(all[a] == (lo, hi));
                        if y > last {
                            assert(before[last].1 < before[y].0);
                        }
                    }
                }
            }
            assert forall|x: int| #[trigger] covers(all, x) == (covers(before, x) || s <= x
                < e) by {
                if covers(all, x) {
                    let a = choose|a: int| 0 <= a < all.len() && (#[trigger] all[a]).0 <= x
                        < all[a].1;
                    if a < first {
                        assert(all[a] == before[a]);
                    } else if a == first {
                        assert(lo <= x < hi);
                        if lo <= x < s {
                            assert(before[first].0 <= x < before[first].1);
                        }
                        if e <= x < hi {
                            assert(before[last - 1].0 <= e);
                            assert(before[last - 1].0 <= x < before[last - 1].1);
                        }
                    } else {
                        assert(all[a] == before[last + a - mid.len()]);
                    }
                }
                if covers(before, x) {
                    let k = choose|k: int| 0 <= k < before.len() && (#[trigger] before[k]).0 <= x
                        < before[k].1;
                    if k < first {
                        assert(all[k] == before[k]);
                    } else if k < last {
                        assert(lo <= x < hi);
                        assert(all[first] == (lo, hi));
                    } else {
                        assert(all[mid.len() + k - last] == before[k]);
                    }
                }
                if s <= x < e {
                    assert(lo <= x < hi);
                    assert(all[first] == (lo, hi));
                }
            }
        }
    }

    /// Drop the offsets from `len` on.
    pub fn clip(&mut self, len: u64)
        requires
            old(self).wf(),
        ensures
            final(self).wf(),
            forall|x: int| #[trigger] final(self).has(x) == (old(self).has(x) && x < len),
    {
        let ghost before = self.runs@;
        let mut out: Vec<(u64, u64)> = Vec::new();
        let mut i: usize = 0;
        while i < self.runs.len() && self.runs[i].0 < len
            invariant
                i <= self.runs@.len(),
                self.runs@ == before,
                canonical(before),
                canonical(out@),
                i > 0 ==> out@.len() > 0 && out@.last().1 <= before[i - 1].1,
                i == 0 ==> out@.len() == 0,
                forall|x: int| #[trigger]
                    covers(out@, x) == (covers(before.take(i as int), x) && x < len),
                forall|k: int| 0 <= k < i ==> (#[trigger] before[k]).0 < len,
                forall|k: int| 0 <= k < out@.len() ==> (#[trigger] out@[k]).1 <= out@.last().1,
            decreases self.runs@.len() - i,
        {
            let (a, b) = self.runs[i];
            let end: u64 = if b < len {
                b
            } else {
                len
            };
            let ghost had = out@;
            out.push((a, end));
            proof {
                let part = before.take(i as int);
                assert(before.take(i + 1) =~= part.push((a, b)));
                if i > 0 {
                    assert(before[i - 1].1 < before[i as int].0);
                }
                assert forall|x: int| #[trigger] covers(out@, x) == (covers(
                    before.take(i + 1),
                    x,
                ) && x < len) by {
                    lemma_covers_push(had, (a, end), x);
                    lemma_covers_push(part, (a, b), x);
                    assert(covers(had, x) == (covers(part, x) && x < len));
                }
                assert forall|p: int, q: int| 0 <= p < q < out@.len() implies (
                #[trigger] out@[p]).1 < (#[trigger] out@[q]).0 by {
                    if q < had.len() {
                        assert(out@[p] == had[p] && out@[q] == had[q]);
                    } else {
                        assert(out@[p] == had[p]);
                    }
                }
            }
            i = i + 1;
        }
        self.runs = out;
        proof {
            assert forall|x: int| #[trigger] covers(self.runs@, x) == (covers(before, x) && x
                < len) by {
                let part = before.take(i as int);
                if covers(before, x) && x < len {
                    let k = choose|k: int| 0 <= k < before.len() && (#[trigger] before[k]).0 <= x
                        < before[k].1;
                    if k >= i {
                        if k > i {
                            assert(before[i as int].1 < before[k].0);
                        }
                    } else {
                        assert(part[k] == before[k]);
                    }
                }
                if covers(part, x) {
                    let k = choose|k: int| 0 <= k < part.len() && (#[trigger] part[k]).0 <= x
                        < part[k].1;
                    assert(before[k] == part[k]);
                }
                assert(covers(self.runs@, x) == (covers(part, x) && x < len));
            }
        }
    }

    /// Cut the window from `start` to `end` into authored and other pieces. An
    /// empty window has none.
    pub fn segments(&self, start: u64, end: u64) -> (out: Vec<Segment>)
        requires
            self.wf(),
        ensures
            start < end ==> cuts(out@, start as int, end as int, self.runs@),
            start >= end ==> out@.len() == 0,
    {
        let mut out: Vec<Segment> = Vec::new();
        if start >= end {
            return out;
        }
        let ghost runs = self.runs@;
        let mut at: u64 = start;
        let mut i: usize = 0;
        while i < self.runs.len() && at < end
            invariant
                start <= at <= end,
                i <= self.runs@.len(),
                runs == self.runs@,
                canonical(runs),
                cuts(out@, start as int, at as int, runs),
                out@.len() > 0 && out@.last().2 && at < end && i < runs.len() ==> at
                    < runs[i as int].0,
                out@.len() > 0 && !out@.last().2 && at < end ==> i < runs.len()
                    && runs[i as int].0 <= at < runs[i as int].1,
                forall|k: int| 0 <= k < i ==> (#[trigger] runs[k]).1 <= at,
            decreases self.runs@.len() - i, end - at,
        {
            let (a, b) = self.runs[i];
            let ghost had = out@;
            if b <= at {
                proof {
                    if i + 1 < runs.len() {
                        assert(runs[i as int].1 < runs[i + 1].0);
                    }
                }
                i = i + 1;
                continue ;
            }
            if at < a {
                let stop: u64 = if a < end {
                    a
                } else {
                    end
                };
                proof {
                    lemma_gap(runs, i as int, at as int, stop as int);
                    lemma_cuts_push(had, start as int, at as int, runs, (at, stop, false));
                }
                out.push((at, stop, false));
                at = stop;
            } else {
                let stop: u64 = if b < end {
                    b
                } else {
                    end
                };
                proof {
                    assert forall|x: int| at <= x < stop implies #[trigger] covers(runs, x) by {
                        assert(runs[i as int].0 <= x < runs[i as int].1);
                    }
                    lemma_cuts_push(had, start as int, at as int, runs, (at, stop, true));
                    if i + 1 < runs.len() {
                        assert(runs[i as int].1 < runs[i + 1].0);
                    }
                }
                out.push((at, stop, true));
                at = stop;
                if stop == b {
                    i = i + 1;
                }
            }
        }
        if at < end {
            let ghost had = out@;
            proof {
                assert forall|x: int| at <= x < end implies !#[trigger] covers(runs, x) by {
                    if covers(runs, x) {
                        let k = choose|k: int| 0 <= k < runs.len() && (#[trigger] runs[k]).0 <= x
                            < runs[k].1;
                        assert(runs[k].1 <= at);
                    }
                }
                lemma_cuts_push(had, start as int, at as int, runs, (at, end, false));
            }
            out.push((at, end, false));
        }
        out
    }
}

proof fn lemma_gap(runs: Seq<(u64, u64)>, i: int, at: int, stop: int)
    requires
        canonical(runs),
        0 <= i < runs.len(),
        at < stop <= runs[i].0,
        forall|k: int| 0 <= k < i ==> (#[trigger] runs[k]).1 <= at,
    ensures
        forall|x: int| at <= x < stop ==> !#[trigger] covers(runs, x),
{
    assert forall|x: int| at <= x < stop implies !#[trigger] covers(runs, x) by {
        if covers(runs, x) {
            let k = choose|k: int| 0 <= k < runs.len() && (#[trigger] runs[k]).0 <= x < runs[k].1;
            if k < i {
                assert(runs[k].1 <= at);
            } else if k > i {
                assert(runs[i].1 < runs[k].0);
            }
        }
    }
}

proof fn lemma_cuts_push(
    segs: Seq<Segment>,
    start: int,
    at: int,
    runs: Seq<(u64, u64)>,
    seg: Segment,
)
    requires
        cuts(segs, start, at, runs),
        seg.0 == at,
        seg.0 < seg.1,
        segs.len() > 0 ==> segs.last().2 != seg.2,
        forall|x: int| seg.0 <= x < seg.1 ==> #[trigger] covers(runs, x) == seg.2,
    ensures
        cuts(segs.push(seg), start, seg.1 as int, runs),
{
    let all = segs.push(seg);
    assert forall|i: int| 0 < i < all.len() implies (#[trigger] all[i]).0 == all[i - 1].1
        && all[i].2 != all[i - 1].2 by {
        if i < segs.len() {
            assert(all[i] == segs[i] && all[i - 1] == segs[i - 1]);
        } else {
            assert(all[i - 1] == segs.last());
        }
    }
    assert forall|i: int, x: int|
        0 <= i < all.len() && (#[trigger] all[i]).0 <= x < all[i].1 implies (#[trigger] covers(
        runs,
        x,
    ) == all[i].2) by {
        if i < segs.len() {
            assert(all[i] == segs[i]);
        }
    }
    assert forall|i: int| 0 <= i < all.len() implies (#[trigger] all[i]).0 < all[i].1 by {
        if i < segs.len() {
            assert(all[i] == segs[i]);
        }
    }
}

/// The runs of the authored pieces, in order.
pub open spec fn authored_pieces(segs: Seq<Segment>) -> Seq<(u64, u64)>
    decreases segs.len(),
{
    if segs.len() == 0 {
        seq![]
    } else if segs.last().2 {
        authored_pieces(segs.drop_last()).push((segs.last().0, segs.last().1))
    } else {
        authored_pieces(segs.drop_last())
    }
}

proof fn lemma_authored_pieces(segs: Seq<Segment>, start: int, end: int, runs: Seq<(u64, u64)>)
    requires
        cuts(segs, start, end, runs),
    ensures
        canonical(authored_pieces(segs)),
        forall|x: int| #[trigger]
            covers(authored_pieces(segs), x) == (start <= x < end && covers(runs, x)),
        authored_pieces(segs).len() > 0 ==> authored_pieces(segs).last().1 <= end,
        authored_pieces(segs).len() > 0 && !segs.last().2 ==> authored_pieces(segs).last().1 < end,
        segs.len() > 0 ==> start < end,
    decreases segs.len(),
{
    if segs.len() > 0 {
        let rest = segs.drop_last();
        let last = segs.last();
        let mid = last.0 as int;
        assert(cuts(rest, start, mid, runs)) by {
            assert forall|i: int| 0 <= i < rest.len() implies (#[trigger] rest[i]).0 < rest[i].1 by {
                assert(rest[i] == segs[i]);
            }
            assert forall|i: int| 0 < i < rest.len() implies (#[trigger] rest[i]).0 == rest[i - 1].1
                && rest[i].2 != rest[i - 1].2 by {
                assert(rest[i] == segs[i] && rest[i - 1] == segs[i - 1]);
            }
            assert forall|i: int, x: int|
                0 <= i < rest.len() && (#[trigger] rest[i]).0 <= x < rest[i].1 implies (
            #[trigger] covers(runs, x) == rest[i].2) by {
                assert(rest[i] == segs[i]);
            }
            if rest.len() > 0 {
                assert(segs[segs.len() - 1].0 == segs[segs.len() - 2].1);
                assert(rest[0] == segs[0]);
            }
        }
        lemma_authored_pieces(rest, start, mid, runs);
        let a = authored_pieces(rest);
        let b = authored_pieces(segs);
        assert(segs[segs.len() - 1] == last);
        assert(last.0 < last.1);
        if rest.len() > 0 {
            assert(segs[segs.len() - 1].2 != segs[segs.len() - 2].2);
            assert(rest.last() == segs[segs.len() - 2]);
        }
        if last.2 {
            assert forall|i: int, j: int| 0 <= i < j < b.len() implies (#[trigger] b[i]).1 < (
            #[trigger] b[j]).0 by {
                if j < a.len() {
                    assert(b[i] == a[i] && b[j] == a[j]);
                } else {
                    assert(b[i] == a[i]);
                    if i < a.len() - 1 {
                        assert(a[i].1 < a[a.len() - 1].0);
                    }
                }
            }
            assert forall|i: int| 0 <= i < b.len() implies (#[trigger] b[i]).0 < b[i].1 by {
                if i < a.len() {
                    assert(b[i] == a[i]);
                }
            }
        }
        assert forall|x: int| #[trigger] covers(b, x) == (start <= x < end && covers(
            runs,
            x,
        )) by {
            if last.2 {
                lemma_covers_push(a, (last.0, last.1), x);
            }
            assert(covers(a, x) == (start <= x < mid && covers(runs, x)));
            if last.0 <= x < last.1 {
                assert(covers(runs, x) == segs[segs.len() - 1].2);
            }
        }
    }
}

/// The authored runs of a window, in order: a canonical list of what is authored
/// in it.
pub fn authored_in(set: &Intervals, start: u64, end: u64) -> (out: Vec<(u64, u64)>)
    requires
        set.wf(),
    ensures
        canonical(out@),
        forall|x: int| #[trigger] covers(out@, x) == (start <= x < end && set.has(x)),
{
    let segs = set.segments(start, end);
    let mut out: Vec<(u64, u64)> = Vec::new();
    let mut i: usize = 0;
    assert(segs@.take(0) =~= Seq::<Segment>::empty());
    while i < segs.len()
        invariant
            i <= segs@.len(),
            out@ == authored_pieces(segs@.take(i as int)),
        decreases segs@.len() - i,
    {
        assert(segs@.take(i + 1).drop_last() =~= segs@.take(i as int));
        let (s, e, authored) = segs[i];
        if authored {
            out.push((s, e));
        }
        i = i + 1;
    }
    assert(segs@.take(i as int) =~= segs@);
    proof {
        if start < end {
            lemma_authored_pieces(segs@, start as int, end as int, set.runs@);
        } else {
            assert(out@ =~= Seq::<(u64, u64)>::empty());
        }
    }
    out
}

/// The set that a list of ranges makes up.
pub fn intervals_of(ranges: &Vec<(u64, u64)>) -> (r: Intervals)
    ensures
        r.wf(),
        forall|x: int| #[trigger] r.has(x) == covers(ranges@, x),
{
    let mut r = Intervals::default();
    let mut i: usize = 0;
    while i < ranges.len()
        invariant
            i <= ranges@.len(),
            r.wf(),
            forall|x: int| #[trigger] r.has(x) == covers(ranges@.take(i as int), x),
        decreases ranges@.len() - i,
    {
        let (s, e) = ranges[i];
        let ghost before = r;
        r.add(s, e);
        proof {
            assert(ranges@.take(i + 1) =~= ranges@.take(i as int).push((s, e)));
            assert forall|x: int| #[trigger] r.has(x) == covers(ranges@.take(i + 1), x) by {
                lemma_covers_push(ranges@.take(i as int), (s, e), x);
                assert(before.has(x) == covers(ranges@.take(i as int), x));
            }
        }
        i = i + 1;
    }
    assert(ranges@.take(i as int) =~= ranges@);
    r
}

/// Adding a range twice adds nothing, and the order of two additions does not
/// matter: either way the set is the same list of runs.
pub proof fn law_additions_commute(
    start: Intervals,
    ab: Intervals,
    ba: Intervals,
    s: u64,
    e: u64,
    u: u64,
    v: u64,
)
    requires
        ab.wf(),
        ba.wf(),
        forall|x: int| #[trigger] ab.has(x) == (start.has(x) || s <= x < e || u <= x < v),
        forall|x: int| #[trigger] ba.has(x) == (start.has(x) || u <= x < v || s <= x < e),
    ensures
        ab.runs@ == ba.runs@,
{
    assert forall|x: int| covers(ab.runs@, x) == covers(ba.runs@, x) by {
        assert(ab.has(x) == ba.has(x));
    }
    law_one_representation(ab.runs@, ba.runs@);
}

/// The segments of a range lie one behind the other from its start to its end: each offset of
/// the range is in one of them, none is outside, and it is told there whether it was written.
pub proof fn law_segments_cover_the_range(
    segs: Seq<Segment>,
    start: int,
    end: int,
    runs: Seq<(u64, u64)>,
    x: int,
)
    requires
        start < end,
        cuts(segs, start, end, runs),
    ensures
        start <= x < end ==> exists|i: int|
            0 <= i < segs.len() && (#[trigger] segs[i]).0 <= x < segs[i].1 && segs[i].2 == covers(
                runs,
                x,
            ),
        !(start <= x < end) ==> forall|i: int|
            0 <= i < segs.len() ==> !((#[trigger] segs[i]).0 <= x < segs[i].1),
{
    assert(segs.len() > 0);
    if start <= x < end {
        lemma_find_segment(segs, start, end, runs, x, segs.len() as int);
    }
    assert forall|i: int| 0 <= i < segs.len() implies start <= (#[trigger] segs[i]).0
        && segs[i].1 <= end by {
        lemma_segment_within(segs, start, end, runs, i);
    }
}

proof fn lemma_find_segment(
    segs: Seq<Segment>,
    start: int,
    end: int,
    runs: Seq<(u64, u64)>,
    x: int,
    n: int,
)
    requires
        cuts(segs, start, end, runs),
        0 < n <= segs.len(),
        start <= x < segs[n - 1].1,
    ensures
        exists|i: int|
            0 <= i < segs.len() && (#[trigger] segs[i]).0 <= x < segs[i].1 && segs[i].2 == covers(
                runs,
                x,
            ),
    decreases n,
{
    if segs[n - 1].0 <= x {
        assert(covers(runs, x) == segs[n - 1].2);
    } else {
        if n == 1 {
            assert(segs[0].0 == start);
        } else {
            assert(segs[n - 1].0 == segs[n - 2].1);
            lemma_find_segment(segs, start, end, runs, x, n - 1);
        }
    }
}

proof fn lemma_segment_within(
    segs: Seq<Segment>,
    start: int,
    end: int,
    runs: Seq<(u64, u64)>,
    i: int,
)
    requires
        cuts(segs, start, end, runs),
        0 <= i < segs.len(),
    ensures
        start <= segs[i].0 < segs[i].1 <= end,
{
    lemma_starts_grow(segs, start, end, runs, i);
    lemma_ends_grow(segs, start, end, runs, i);
}

proof fn lemma_starts_grow(
    segs: Seq<Segment>,
    start: int,
    end: int,
    runs: Seq<(u64, u64)>,
    i: int,
)
    requires
        cuts(segs, start, end, runs),
        0 <= i < segs.len(),
    ensures
        start <= segs[i].0,
    decreases i,
{
    if i > 0 {
        lemma_starts_grow(segs, start, end, runs, i - 1);
        assert(segs[i].0 == segs[i - 1].1);
    }
}

proof fn lemma_ends_grow(
    segs: Seq<Segment>,
    start: int,
    end: int,
    runs: Seq<(u64, u64)>,
    i: int,
)
    requires
        cuts(segs, start, end, runs),
        0 <= i < segs.len(),
    ensures
        segs[i].1 <= end,
    decreases segs.len() - i,
{
    if i < segs.len() - 1 {
        lemma_ends_grow(segs, start, end, runs, i + 1);
        assert(segs[i + 1].0 == segs[i].1);
    }
}

/// The pieces that were written are the segments that say so, in order.
pub proof fn law_written_pieces_are_the_written_segments(segs: Seq<Segment>)
    ensures
        authored_pieces(segs) == segs.filter(|s: Segment| s.2).map_values(
            |s: Segment| (s.0, s.1),
        ),
    decreases segs.len(),
{
    reveal(Seq::filter);
    if segs.len() > 0 {
        law_written_pieces_are_the_written_segments(segs.drop_last());
    }
    assert(authored_pieces(segs) =~= segs.filter(|s: Segment| s.2).map_values(
        |s: Segment| (s.0, s.1),
    ));
}

} // verus!

//! Search results: where a hit can be opened, and in which order hits come.

use crate::modes::StoredSyncFolder;
use crate::ops::opt_view;
use crate::paths::{law_relative_composes, relative, relative_to};
use crate::sorting::{
    law_stable_sort_sorts, law_text_order_is_irreflexive, lemma_sort_has, lemma_text_chain,
    sort_stable, stable_sort, strict_weak, text_less, text_lt,
};
use crate::text::{
    concat2, concat3, lemma_split_joined, same_text, split, split_on, trim, trimmed,
};
use vstd::prelude::*;

verus! {

/// The synced folders that a hit can be opened through: the path in the drive, and
/// the local directory.
#[derive(Debug)]
pub struct SearchRoots {
    pub roots: Vec<(String, String)>,
}

/// `rest` below the directory `dir`, as paths are joined: a separator is added
/// where `dir` does not end in one, and an absolute `rest` stands alone.
pub open spec fn joined(dir: Seq<char>, rest: Seq<char>) -> Seq<char> {
    if rest.len() > 0 && rest[0] == '/' {
        rest
    } else if dir.len() == 0 || dir.last() == '/' {
        dir + rest
    } else {
        dir + "/"@ + rest
    }
}

/// `rest` below the directory `dir`, as paths are joined.
pub fn join_path(dir: &str, rest: &str) -> (r: String)
    ensures
        r@ == joined(dir@, rest@),
{
    let d = crate::text::chars_of(dir);
    let e = crate::text::chars_of(rest);
    if e.len() > 0 && e[0] == '/' {
        return rest.to_owned();
    }
    if d.len() == 0 || d[d.len() - 1] == '/' {
        return concat2(dir, rest);
    }
    concat3(dir, "/", rest)
}

/// How deep a hit lies below a root, if it lies below it at all. The root itself lies
/// at no depth.
pub open spec fn depth_below(root: Seq<char>, path: Seq<char>) -> Option<nat> {
    match relative(root, path) {
        None => None,
        Some(rest) => Some(
            if rest.len() == 0 {
                0
            } else {
                split(rest, '/').len()
            },
        ),
    }
}

/// The root that a hit is opened through: the one that it lies least deep below, and
/// of several such the first.
pub open spec fn best_root(roots: Seq<(String, String)>, path: Seq<char>) -> Option<int>
    decreases roots.len(),
{
    if roots.len() == 0 {
        None
    } else {
        let best = best_root(roots.drop_last(), path);
        match depth_below(roots.last().0@, path) {
            None => best,
            Some(d) => if best is None || d < depth_below(roots[best->0].0@, path)->0 {
                Some(roots.len() - 1)
            } else {
                best
            },
        }
    }
}

proof fn lemma_best_root(roots: Seq<(String, String)>, path: Seq<char>)
    ensures
        match best_root(roots, path) {
            None => forall|i: int|
                0 <= i < roots.len() ==> depth_below((#[trigger] roots[i]).0@, path) is None,
            Some(b) => {
                &&& 0 <= b < roots.len()
                &&& depth_below(roots[b].0@, path) is Some
                &&& forall|i: int|
                    0 <= i < roots.len() && depth_below((#[trigger] roots[i]).0@, path) is Some
                        ==> depth_below(roots[b].0@, path)->0 <= depth_below(roots[i].0@, path)->0
            },
        },
    decreases roots.len(),
{
    if roots.len() > 0 {
        let rest = roots.drop_last();
        lemma_best_root(rest, path);
        assert forall|i: int| 0 <= i < roots.len() - 1 implies #[trigger] roots[i] == rest[i] by {}
    }
}

/// The local path that a hit is opened at.
pub open spec fn resolved(roots: Seq<(String, String)>, path: Seq<char>) -> Option<Seq<char>> {
    match best_root(roots, path) {
        None => None,
        Some(b) => Some(joined(roots[b].1@, relative(roots[b].0@, path)->0)),
    }
}

impl SearchRoots {
    /// The local path that a hit is opened at, if it lies below a root.
    pub fn resolve(&self, path: &str) -> (r: Option<String>)
        ensures
            opt_view(r) == resolved(self.roots@, path@),
    {
        let mut best: Option<usize> = None;
        let mut least: usize = 0;
        let mut i: usize = 0;
        assert(self.roots@.take(0) =~= Seq::<(String, String)>::empty());
        while i < self.roots.len()
            invariant
                i <= self.roots@.len(),
                match best {
                    None => best_root(self.roots@.take(i as int), path@) is None,
                    Some(b) => {
                        &&& best_root(self.roots@.take(i as int), path@) == Some(b as int)
                        &&& b < i
                        &&& depth_below(self.roots@[b as int].0@, path@) == Some(least as nat)
                    },
                },
            decreases self.roots@.len() - i,
        {
            proof {
                assert(self.roots@.take(i + 1).drop_last() =~= self.roots@.take(i as int));
                assert(self.roots@.take(i + 1).last() == self.roots@[i as int]);
                if best is Some {
                    assert(self.roots@.take(i as int)[best->0 as int]
                        == self.roots@[best->0 as int]);
                }
            }
            if let Some(rest) = relative_to(self.roots[i].0.as_str(), path) {
                let depth: usize = if rest.is_empty() {
                    0
                } else {
                    split_on(rest, '/').len()
                };
                assert(depth_below(self.roots@[i as int].0@, path@) == Some(depth as nat));
                let closer: bool = match best {
                    None => true,
                    Some(_) => depth < least,
                };
                if closer {
                    best = Some(i);
                    least = depth;
                }
            }
            i = i + 1;
        }
        assert(self.roots@.take(i as int) =~= self.roots@);
        match best {
            None => None,
            Some(b) => match relative_to(self.roots[b].0.as_str(), path) {
                None => None,
                Some(rest) => Some(join_path(self.roots[b].1.as_str(), rest)),
            },
        }
    }
}

/// What lies below a folder inside a root lies deeper below the root than below the
/// folder.
proof fn lemma_inner_is_closer(outer: Seq<char>, inner: Seq<char>, path: Seq<char>)
    requires
        relative(outer, inner) is Some,
        (relative(outer, inner)->0).len() > 0,
        relative(inner, path) is Some,
    ensures
        depth_below(outer, path) is Some,
        depth_below(inner, path)->0 < depth_below(outer, path)->0,
{
    let between = relative(outer, inner)->0;
    if path == inner {
    } else {
        let rest = path.skip(inner.len() as int + 1);
        if outer.len() == 0 {
            assert(path =~= inner + seq!['/'] + rest);
        } else {
            assert(inner != outer);
            law_relative_composes(outer, inner, path);
        }
        lemma_split_joined(between, rest, '/');
    }
}

/// A hit is opened through a root that covers it, and no root that covers it leaves a
/// shorter path below. So of two roots one inside the other it is never the outer one:
/// the root that was set up for it most specifically wins.
pub proof fn law_most_specific_root_wins(roots: Seq<(String, String)>, path: Seq<char>, i: int)
    requires
        0 <= i < roots.len(),
        relative(roots[i].0@, path) is Some,
    ensures
        best_root(roots, path) is Some,
        ({
            let b = best_root(roots, path)->0;
            &&& 0 <= b < roots.len()
            &&& relative(roots[b].0@, path) is Some
            &&& depth_below(roots[b].0@, path)->0 <= depth_below(roots[i].0@, path)->0
            &&& relative(roots[b].0@, roots[i].0@) is Some ==> (relative(
                roots[b].0@,
                roots[i].0@,
            )->0).len() == 0
        }),
{
    lemma_best_root(roots, path);
    let b = best_root(roots, path)->0;
    let inside = relative(roots[b].0@, roots[i].0@);
    if inside is Some && (inside->0).len() > 0 {
        lemma_inner_is_closer(roots[b].0@, roots[i].0@, path);
    }
}

/// Whether a synced folder can be opened: a mirrored one always, an on-demand one
/// while it is mounted.
pub fn is_search_root(folder: &StoredSyncFolder, mounted: bool) -> (r: bool)
    ensures
        r == (if folder.mode@ == "ondemand"@ {
            mounted
        } else {
            folder.mode@ == "mirror"@
        }),
{
    if same_text(folder.mode.as_str(), "ondemand") {
        return mounted;
    }
    same_text(folder.mode.as_str(), "mirror")
}

/// A synced folder, whether it is mounted, and where its root is in the drive.
#[derive(Debug)]
pub struct RootCandidate {
    pub folder: StoredSyncFolder,
    pub mounted: bool,
    pub drive_path: Option<String>,
}

/// Whether a folder is a root of the search.
pub open spec fn is_root(c: RootCandidate) -> bool {
    c.drive_path is Some && (if c.folder.mode@ == "ondemand"@ {
        c.mounted
    } else {
        c.folder.mode@ == "mirror"@
    })
}

/// The roots of the search, in order.
pub open spec fn roots_of(all: Seq<RootCandidate>) -> Seq<(String, String)>
    decreases all.len(),
{
    if all.len() == 0 {
        seq![]
    } else if is_root(all.last()) {
        roots_of(all.drop_last()).push((all.last().drive_path->0, all.last().folder.local_path))
    } else {
        roots_of(all.drop_last())
    }
}

/// The synced folders that hits can be opened through.
pub fn search_roots(all: Vec<RootCandidate>) -> (r: SearchRoots)
    ensures
        r.roots@ == roots_of(all@),
{
    let ghost given = all@;
    let mut all = all;
    let mut roots: Vec<(String, String)> = Vec::new();
    let ghost mut i: int = 0;
    assert(given.take(0) =~= Seq::<RootCandidate>::empty());
    assert(given.skip(0) =~= given);
    while all.len() > 0
        invariant
            0 <= i <= given.len(),
            all@ == given.skip(i),
            roots@ == roots_of(given.take(i)),
        decreases all@.len(),
    {
        let c = all.remove(0);
        proof {
            assert(c == given[i]);
            assert(all@ =~= given.skip(i + 1));
            assert(given.take(i + 1).drop_last() =~= given.take(i));
            assert(given.take(i + 1).last() == c);
            i = i + 1;
        }
        if is_search_root(&c.folder, c.mounted) {
            if let Some(p) = c.drive_path {
                roots.push((p, c.folder.local_path));
            }
        }
    }
    assert(given.take(i) =~= given);
    SearchRoots { roots }
}

/// What the index found in the drive. `score` is how well it fits; a candidate that
/// does not fit, or is of a kind that was not asked for, has none.
#[derive(Debug)]
pub struct DriveCandidate {
    pub name: String,
    pub is_dir: bool,
    pub size: u64,
    pub modified: i64,
    pub uid: String,
    pub path: String,
    pub score: Option<i64>,
}

/// A hit in the drive.
#[derive(Debug)]
pub struct SearchHit {
    pub name: String,
    pub is_dir: bool,
    pub size: u64,
    pub modified: i64,
    pub pinned: bool,
    pub uid: String,
    pub mounted_path: Option<String>,
    pub path: String,
    pub score: i64,
}

/// What a pinned hit gains.
pub const PIN_BONUS: i64 = 250;

/// Whether one of `pinned` is `uid`.
pub open spec fn is_pinned(pinned: Seq<String>, uid: Seq<char>) -> bool {
    crate::recovery::among(pinned, uid)
}

/// Whether `hit` is what becomes of a candidate. `base` is its score before a pin
/// is counted.
pub open spec fn is_hit(
    hit: SearchHit,
    c: DriveCandidate,
    base: int,
    bonus: bool,
    pinned: Seq<String>,
    roots: Seq<(String, String)>,
) -> bool {
    &&& hit.name == c.name
    &&& hit.is_dir == c.is_dir
    &&& hit.size == c.size
    &&& hit.modified == c.modified
    &&& hit.uid == c.uid
    &&& hit.path == c.path
    &&& hit.pinned == is_pinned(pinned, c.uid@)
    &&& opt_view(hit.mounted_path) == resolved(roots, c.path@)
    &&& hit.score == base + (if bonus && hit.pinned {
        PIN_BONUS as int
    } else {
        0
    })
}

/// The candidates that have a score, in order.
pub open spec fn scored(all: Seq<DriveCandidate>) -> Seq<DriveCandidate> {
    all.filter(|c: DriveCandidate| c.score is Some)
}

fn make_hit(
    c: DriveCandidate,
    base: i64,
    bonus: bool,
    pinned: &Vec<String>,
    roots: &SearchRoots,
) -> (r: SearchHit)
    requires
        base <= i64::MAX - PIN_BONUS,
    ensures
        is_hit(r, c, base as int, bonus, pinned@, roots.roots@),
{
    let p = crate::recovery::is_among(pinned, c.uid.as_str());
    let mounted_path = roots.resolve(c.path.as_str());
    SearchHit {
        name: c.name,
        is_dir: c.is_dir,
        size: c.size,
        modified: c.modified,
        pinned: p,
        uid: c.uid,
        mounted_path,
        path: c.path,
        score: if bonus && p {
            base + PIN_BONUS
        } else {
            base
        },
    }
}

/// The hits of a plain search, in the order of the index and without a score.
pub fn search(found: Vec<DriveCandidate>, pinned: &Vec<String>, roots: &SearchRoots) -> (r: Vec<
    SearchHit,
>)
    ensures
        r@.len() == found@.len(),
        forall|i: int|
            0 <= i < found@.len() ==> is_hit(
                #[trigger] r@[i],
                found@[i],
                0,
                false,
                pinned@,
                roots.roots@,
            ),
{
    let ghost given = found@;
    let mut found = found;
    let mut out: Vec<SearchHit> = Vec::new();
    assert(given.skip(0) =~= given);
    while found.len() > 0
        invariant
            out@.len() <= given.len(),
            found@ == given.skip(out@.len() as int),
            forall|i: int|
                0 <= i < out@.len() ==> is_hit(
                    #[trigger] out@[i],
                    given[i],
                    0,
                    false,
                    pinned@,
                    roots.roots@,
                ),
        decreases found@.len(),
    {
        let ghost at = out@.len() as int;
        let c = found.remove(0);
        assert(c == given[at]);
        assert(found@ =~= given.skip(at + 1));
        out.push(make_hit(c, 0, false, pinned, roots));
    }
    out
}

/// The hits of a ranked search, before they are ordered.
pub fn drive_hits(found: Vec<DriveCandidate>, pinned: &Vec<String>, roots: &SearchRoots) -> (r: Vec<
    SearchHit,
>)
    requires
        forall|i: int|
            0 <= i < found@.len() && (#[trigger] found@[i]).score is Some ==> found@[i].score->0
                <= i64::MAX - PIN_BONUS,
    ensures
        r@.len() == scored(found@).len(),
        forall|i: int|
            0 <= i < r@.len() ==> is_hit(
                #[trigger] r@[i],
                scored(found@)[i],
                scored(found@)[i].score->0 as int,
                true,
                pinned@,
                roots.roots@,
            ),
{
    let ghost given = found@;
    let ghost p = |c: DriveCandidate| c.score is Some;
    let mut found = found;
    let mut out: Vec<SearchHit> = Vec::new();
    let ghost mut i: int = 0;
    assert(given.take(0) =~= Seq::<DriveCandidate>::empty());
    assert(given.skip(0) =~= given);
    proof {
        reveal(Seq::filter);
    }
    while found.len() > 0
        invariant
            0 <= i <= given.len(),
            p == (|c: DriveCandidate| c.score is Some),
            found@ == given.skip(i),
            forall|k: int|
                0 <= k < given.len() && (#[trigger] given[k]).score is Some ==> given[k].score->0
                    <= i64::MAX - PIN_BONUS,
            out@.len() == given.take(i).filter(p).len(),
            forall|k: int|
                0 <= k < out@.len() ==> is_hit(
                    #[trigger] out@[k],
                    given.take(i).filter(p)[k],
                    given.take(i).filter(p)[k].score->0 as int,
                    true,
                    pinned@,
                    roots.roots@,
                ),
        decreases found@.len(),
    {
        let c = found.remove(0);
        proof {
            reveal(Seq::filter);
            assert(c == given[i]);
            assert(found@ =~= given.skip(i + 1));
            assert(given.take(i + 1).drop_last() =~= given.take(i));
            assert(given.take(i + 1).last() == c);
            i = i + 1;
        }
        if let Some(base) = c.score {
            out.push(make_hit(c, base, true, pinned, roots));
        }
    }
    assert(given.take(i) =~= given);
    out
}

/// The order of hits: the best score first, then by name, then by path.
pub open spec fn ranked(
    a: (i64, Seq<char>, Seq<char>),
    b: (i64, Seq<char>, Seq<char>),
) -> bool {
    a.0 > b.0 || (a.0 == b.0 && (text_lt(a.1, b.1) || (a.1 == b.1 && text_lt(a.2, b.2))))
}

/// The order of hits in the drive.
pub open spec fn hit_before() -> spec_fn(SearchHit, SearchHit) -> bool {
    |a: SearchHit, b: SearchHit|
        ranked((a.score, a.name@, a.path@), (b.score, b.name@, b.path@))
}

/// The order of hits on this machine.
pub open spec fn local_before() -> spec_fn(LocalHit, LocalHit) -> bool {
    |a: LocalHit, b: LocalHit|
        ranked((a.score, a.name@, a.path@), (b.score, b.name@, b.path@))
}

fn rank_less(a: i64, an: &String, ap: &String, b: i64, bn: &String, bp: &String) -> (r: bool)
    ensures
        r == ranked((a, an@, ap@), (b, bn@, bp@)),
{
    if a != b {
        return a > b;
    }
    if text_less(an.as_str(), bn.as_str()) {
        return true;
    }
    same_text(an.as_str(), bn.as_str()) && text_less(ap.as_str(), bp.as_str())
}

/// The first `n` of a list.
pub open spec fn at_most<T>(s: Seq<T>, n: nat) -> Seq<T> {
    if s.len() <= n {
        s
    } else {
        s.take(n as int)
    }
}

fn truncated<T>(v: Vec<T>, limit: usize) -> (r: Vec<T>)
    ensures
        r@ == at_most(v@, limit as nat),
{
    let mut v = v;
    if v.len() > limit {
        v.truncate(limit);
    }
    v
}

pub(crate) proof fn lemma_ranking_is_an_order()
    ensures
        strict_weak(hit_before()),
        strict_weak(local_before()),
{
    assert forall|a: SearchHit| !#[trigger] (hit_before())(a, a) by {
        law_text_order_is_irreflexive(a.name@);
        law_text_order_is_irreflexive(a.path@);
    }
    assert forall|a: LocalHit| !#[trigger] (local_before())(a, a) by {
        law_text_order_is_irreflexive(a.name@);
        law_text_order_is_irreflexive(a.path@);
    }
    assert forall|a: SearchHit, b: SearchHit, c: SearchHit| #[trigger]
        (hit_before())(a, b) && #[trigger] (hit_before())(b, c) implies (hit_before())(a, c) by {
        lemma_ranked_chain(
            (a.score, a.name@, a.path@),
            (b.score, b.name@, b.path@),
            (c.score, c.name@, c.path@),
        );
    }
    assert forall|a: LocalHit, b: LocalHit, c: LocalHit| #[trigger]
        (local_before())(a, b) && #[trigger] (local_before())(b, c) implies (local_before())(
        a,
        c,
    ) by {
        lemma_ranked_chain(
            (a.score, a.name@, a.path@),
            (b.score, b.name@, b.path@),
            (c.score, c.name@, c.path@),
        );
    }
    assert forall|a: SearchHit, b: SearchHit, c: SearchHit|
        #![trigger (hit_before())(a, b), (hit_before())(b, c)]
        !(hit_before())(a, b) && !(hit_before())(b, c) implies !(hit_before())(a, c) by {
        lemma_ranked_chain(
            (a.score, a.name@, a.path@),
            (b.score, b.name@, b.path@),
            (c.score, c.name@, c.path@),
        );
    }
    assert forall|a: LocalHit, b: LocalHit, c: LocalHit|
        #![trigger (local_before())(a, b), (local_before())(b, c)]
        !(local_before())(a, b) && !(local_before())(b, c) implies !(local_before())(a, c) by {
        lemma_ranked_chain(
            (a.score, a.name@, a.path@),
            (b.score, b.name@, b.path@),
            (c.score, c.name@, c.path@),
        );
    }
}

proof fn lemma_ranked_chain(
    a: (i64, Seq<char>, Seq<char>),
    b: (i64, Seq<char>, Seq<char>),
    c: (i64, Seq<char>, Seq<char>),
)
    ensures
        ranked(a, b) && ranked(b, c) ==> ranked(a, c),
        !ranked(a, b) && !ranked(b, c) ==> !ranked(a, c),
{
    lemma_text_chain(a.1, b.1, c.1);
    lemma_text_chain(a.2, b.2, c.2);
    lemma_text_chain(c.1, b.1, a.1);
    lemma_text_chain(c.2, b.2, a.2);
}

/// The first `n` of what is sorted: in order, all of it from the list, and nothing that is
/// left out comes before anything that is kept.
pub(crate) proof fn lemma_best<T>(s: Seq<T>, lt: spec_fn(T, T) -> bool, n: nat)
    requires
        strict_weak(lt),
    ensures
        ({
            let r = at_most(stable_sort(s, lt), n);
            &&& r.len() == (if s.len() <= n {
                s.len()
            } else {
                n
            })
            &&& forall|i: int, j: int|
                0 <= i < j < r.len() ==> !lt(#[trigger] r[j], #[trigger] r[i])
            &&& forall|k: int|
                0 <= k < s.len() ==> r.contains(#[trigger] s[k]) || forall|i: int|
                    0 <= i < r.len() ==> !lt(s[k], #[trigger] r[i])
            &&& forall|i: int| 0 <= i < r.len() ==> s.contains(#[trigger] r[i])
        }),
{
    law_stable_sort_sorts(s, lt);
    lemma_sort_has(s, lt);
    let all = stable_sort(s, lt);
    let r = at_most(all, n);
    assert forall|i: int| 0 <= i < r.len() implies s.contains(#[trigger] r[i]) by {
        assert(r[i] == all[i]);
    }
    assert forall|k: int| 0 <= k < s.len() implies r.contains(#[trigger] s[k]) || forall|i: int|
        0 <= i < r.len() ==> !lt(s[k], #[trigger] r[i]) by {
        let m = choose|m: int| 0 <= m < all.len() && all[m] == s[k];
        if m < r.len() {
            assert(r[m] == s[k]);
        } else {
            assert forall|i: int| 0 <= i < r.len() implies !lt(s[k], #[trigger] r[i]) by {
                assert(r[i] == all[i]);
            }
        }
    }
    assert forall|i: int, j: int| 0 <= i < j < r.len() implies !lt(
        #[trigger] r[j],
        #[trigger] r[i],
    ) by {
        assert(r[i] == all[i] && r[j] == all[j]);
    }
}

/// Put hits into order, and keep the first `limit`.
pub fn rank_hits(hits: Vec<SearchHit>, limit: usize) -> (r: Vec<SearchHit>)
    ensures
        r@ == at_most(stable_sort(hits@, hit_before()), limit as nat),
        // The best first.
        forall|i: int, j: int|
            #![trigger r@[i], r@[j]]
            0 <= i < j < r@.len() ==> {
                &&& r@[i].score >= r@[j].score
                &&& r@[i].score == r@[j].score ==> !text_lt(r@[j].name@, r@[i].name@)
                &&& r@[i].score == r@[j].score && r@[i].name@ == r@[j].name@ ==> !text_lt(
                    r@[j].path@,
                    r@[i].path@,
                )
            },
        // What is left out is no better than what is kept.
        r@.len() == (if hits@.len() <= limit {
            hits@.len()
        } else {
            limit as nat
        }),
        forall|k: int|
            0 <= k < hits@.len() ==> r@.contains(#[trigger] hits@[k]) || forall|i: int|
                0 <= i < r@.len() ==> (#[trigger] r@[i]).score >= hits@[k].score,
        forall|i: int| 0 <= i < r@.len() ==> hits@.contains(#[trigger] r@[i]),
{
    proof {
        lemma_ranking_is_an_order();
        lemma_best(hits@, hit_before(), limit as nat);
    }
    let less = |a: &SearchHit, b: &SearchHit| -> (x: bool)
        ensures
            x == ranked((a.score, a.name@, a.path@), (b.score, b.name@, b.path@)),
        { rank_less(a.score, &a.name, &a.path, b.score, &b.name, &b.path) };
    truncated(sort_stable(hits, less, Ghost(hit_before())), limit)
}

/// What the index found on this machine.
#[derive(Debug)]
pub struct LocalCandidate {
    pub name: String,
    pub path: String,
    pub is_dir: bool,
    pub size: i64,
    pub mtime: i64,
    pub score: Option<i64>,
}

/// A hit on this machine.
#[derive(Debug)]
pub struct LocalHit {
    pub name: String,
    pub path: String,
    pub is_dir: bool,
    pub size: u64,
    pub modified: i64,
    pub score: i64,
}

/// What becomes of a candidate on this machine: a negative size counts as nothing.
pub open spec fn local_hit(c: LocalCandidate, score: i64) -> LocalHit {
    LocalHit {
        name: c.name,
        path: c.path,
        is_dir: c.is_dir,
        size: if c.size < 0 {
            0
        } else {
            c.size as u64
        },
        modified: c.mtime,
        score,
    }
}

fn make_local(c: LocalCandidate, score: i64) -> (r: LocalHit)
    ensures
        r == local_hit(c, score),
{
    LocalHit {
        name: c.name,
        path: c.path,
        is_dir: c.is_dir,
        size: if c.size < 0 {
            0
        } else {
            c.size as u64
        },
        modified: c.mtime,
        score,
    }
}

/// The hits of a plain search on this machine, without a score.
pub fn search_local(found: Vec<LocalCandidate>) -> (r: Vec<LocalHit>)
    ensures
        r@ == found@.map_values(|c: LocalCandidate| local_hit(c, 0)),
{
    let ghost given = found@;
    let ghost f = |c: LocalCandidate| local_hit(c, 0);
    let mut found = found;
    let mut out: Vec<LocalHit> = Vec::new();
    assert(given.skip(0) =~= given);
    assert(given.take(0).map_values(f) =~= out@);
    while found.len() > 0
        invariant
            f == (|c: LocalCandidate| local_hit(c, 0)),
            out@.len() <= given.len(),
            found@ == given.skip(out@.len() as int),
            out@ == given.take(out@.len() as int).map_values(f),
        decreases found@.len(),
    {
        let ghost at = out@.len() as int;
        let c = found.remove(0);
        assert(c == given[at]);
        assert(found@ =~= given.skip(at + 1));
        out.push(make_local(c, 0));
        assert(out@ =~= given.take(at + 1).map_values(f));
    }
    assert(given.take(out@.len() as int) =~= given);
    out
}

/// The hits of a ranked search on this machine, before they are ordered.
pub open spec fn local_hits_of(all: Seq<LocalCandidate>) -> Seq<LocalHit>
    decreases all.len(),
{
    if all.len() == 0 {
        seq![]
    } else {
        let rest = local_hits_of(all.drop_last());
        match all.last().score {
            None => rest,
            Some(s) => rest.push(local_hit(all.last(), s)),
        }
    }
}

proof fn lemma_local_hits(all: Seq<LocalCandidate>)
    ensures
        forall|k: int|
            0 <= k < all.len() && (#[trigger] all[k]).score is Some ==> local_hits_of(all).contains(
                local_hit(all[k], all[k].score->0),
            ),
    decreases all.len(),
{
    if all.len() > 0 {
        let rest = all.drop_last();
        lemma_local_hits(rest);
        let hits = local_hits_of(all);
        assert forall|k: int| 0 <= k < all.len() && (#[trigger] all[k]).score is Some implies hits.contains(
            local_hit(all[k], all[k].score->0),
        ) by {
            if k < rest.len() {
                assert(all[k] == rest[k]);
                let h = local_hit(rest[k], rest[k].score->0);
                assert(local_hits_of(rest).contains(h));
                let m = choose|m: int|
                    0 <= m < local_hits_of(rest).len() && local_hits_of(rest)[m] == h;
                assert(hits[m] == h);
            } else {
                assert(hits.last() == local_hit(all[k], all[k].score->0));
            }
        }
    }
}

proof fn lemma_local_origin(all: Seq<LocalCandidate>, h: LocalHit) -> (k: int)
    requires
        local_hits_of(all).contains(h),
    ensures
        0 <= k < all.len(),
        all[k].score is Some,
        h == local_hit(all[k], all[k].score->0),
    decreases all.len(),
{
    let hits = local_hits_of(all);
    let m = choose|m: int| 0 <= m < hits.len() && hits[m] == h;
    let rest = all.drop_last();
    if m < local_hits_of(rest).len() {
        assert(hits[m] == local_hits_of(rest)[m]);
        lemma_local_origin(rest, h)
    } else {
        all.len() - 1
    }
}

proof fn lemma_local_best(given: Seq<LocalCandidate>, limit: usize)
    ensures
        ({
            let best = at_most(stable_sort(local_hits_of(given), local_before()), limit as nat);
            &&& best.len() <= limit
            &&& forall|i: int, j: int|
                #![trigger best[i], best[j]]
                0 <= i < j < best.len() ==> {
                    &&& best[i].score >= best[j].score
                    &&& best[i].score == best[j].score ==> !text_lt(best[j].name@, best[i].name@)
                    &&& best[i].score == best[j].score && best[i].name@ == best[j].name@
                        ==> !text_lt(best[j].path@, best[i].path@)
                }
            &&& forall|k: int|
                0 <= k < given.len() && (#[trigger] given[k]).score is Some ==> (exists|i: int|
                    0 <= i < best.len() && (#[trigger] best[i]).path == given[k].path
                        && best[i].name == given[k].name && best[i].score == given[k].score->0) || (
                best.len() == limit && forall|i: int|
                    0 <= i < best.len() ==> (#[trigger] best[i]).score >= given[k].score->0)
            &&& forall|h: LocalHit| #[trigger]
                best.contains(h) ==> exists|k: int|
                    0 <= k < given.len() && (#[trigger] given[k]).score == Some(h.score)
                        && given[k].path == h.path && given[k].name == h.name && given[k].is_dir
                        == h.is_dir && given[k].mtime == h.modified
        }),
{
    let out = local_hits_of(given);
    let lt = local_before();
    lemma_ranking_is_an_order();
    lemma_best(out, lt, limit as nat);
    lemma_local_hits(given);
    let best = at_most(stable_sort(out, lt), limit as nat);
    assert forall|k: int| 0 <= k < given.len() && (#[trigger] given[k]).score is Some implies (
    exists|i: int|
        0 <= i < best.len() && (#[trigger] best[i]).path == given[k].path && best[i].name
            == given[k].name && best[i].score == given[k].score->0) || (best.len() == limit
        && forall|i: int|
        0 <= i < best.len() ==> (#[trigger] best[i]).score >= given[k].score->0) by {
        let hit = local_hit(given[k], given[k].score->0);
        assert(out.contains(hit));
        let m = choose|m: int| 0 <= m < out.len() && out[m] == hit;
        if best.contains(out[m]) {
            let i = choose|i: int| 0 <= i < best.len() && best[i] == out[m];
            assert(best[i].path == given[k].path);
        } else {
            if out.len() <= limit {
                lemma_sort_has(out, lt);
                assert(best == stable_sort(out, lt));
            }
            assert forall|i: int| 0 <= i < best.len() implies (#[trigger] best[i]).score
                >= given[k].score->0 by {
                assert(!lt(out[m], best[i]));
            }
        }
    }
    assert forall|h: LocalHit| #[trigger] best.contains(h) implies exists|k: int|
        0 <= k < given.len() && (#[trigger] given[k]).score == Some(h.score) && given[k].path
            == h.path && given[k].name == h.name && given[k].is_dir == h.is_dir && given[k].mtime
            == h.modified by {
        let i = choose|i: int| 0 <= i < best.len() && best[i] == h;
        assert(out.contains(best[i]));
        let k = lemma_local_origin(given, h);
        assert(given[k].score == Some(h.score));
    }
    assert forall|i: int, j: int|
        #![trigger best[i], best[j]]
        0 <= i < j < best.len() implies {
        &&& best[i].score >= best[j].score
        &&& best[i].score == best[j].score ==> !text_lt(best[j].name@, best[i].name@)
        &&& best[i].score == best[j].score && best[i].name@ == best[j].name@ ==> !text_lt(
            best[j].path@,
            best[i].path@,
        )
    } by {
        assert(!lt(best[j], best[i]));
    }
}

/// The hits of a ranked search on this machine: the best `limit`, in order.
pub fn rank_local(found: Vec<LocalCandidate>, limit: usize) -> (r: Vec<LocalHit>)
    ensures
        r@ == at_most(stable_sort(local_hits_of(found@), local_before()), limit as nat),
        // The best first.
        forall|i: int, j: int|
            #![trigger r@[i], r@[j]]
            0 <= i < j < r@.len() ==> {
                &&& r@[i].score >= r@[j].score
                &&& r@[i].score == r@[j].score ==> !text_lt(r@[j].name@, r@[i].name@)
                &&& r@[i].score == r@[j].score && r@[i].name@ == r@[j].name@ ==> !text_lt(
                    r@[j].path@,
                    r@[i].path@,
                )
            },
        // What is left out is no better than what is kept, and the limit leaves it out.
        r@.len() <= limit,
        forall|k: int|
            0 <= k < found@.len() && (#[trigger] found@[k]).score is Some ==> (exists|i: int|
                0 <= i < r@.len() && (#[trigger] r@[i]).path == found@[k].path && r@[i].name
                    == found@[k].name && r@[i].score == found@[k].score->0) || (r@.len() == limit
                && forall|i: int|
                0 <= i < r@.len() ==> (#[trigger] r@[i]).score >= found@[k].score->0),
        forall|h: LocalHit| #[trigger]
            r@.contains(h) ==> exists|k: int|
                0 <= k < found@.len() && (#[trigger] found@[k]).score == Some(h.score)
                    && found@[k].path == h.path && found@[k].name == h.name && found@[k].is_dir
                    == h.is_dir && found@[k].mtime == h.modified,
{
    let ghost given = found@;
    let mut found = found;
    let mut out: Vec<LocalHit> = Vec::new();
    let ghost mut i: int = 0;
    assert(given.take(0) =~= Seq::<LocalCandidate>::empty());
    assert(given.skip(0) =~= given);
    while found.len() > 0
        invariant
            0 <= i <= given.len(),
            found@ == given.skip(i),
            out@ == local_hits_of(given.take(i)),
        decreases found@.len(),
    {
        let c = found.remove(0);
        proof {
            assert(c == given[i]);
            assert(found@ =~= given.skip(i + 1));
            assert(given.take(i + 1).drop_last() =~= given.take(i));
            assert(given.take(i + 1).last() == c);
            i = i + 1;
        }
        if let Some(s) = c.score {
            out.push(make_local(c, s));
        }
    }
    assert(given.take(i) =~= given);
    let less = |a: &LocalHit, b: &LocalHit| -> (x: bool)
        ensures
            x == ranked((a.score, a.name@, a.path@), (b.score, b.name@, b.path@)),
        { rank_less(a.score, &a.name, &a.path, b.score, &b.name, &b.path) };
    proof {
        lemma_local_best(given, limit);
    }
    truncated(sort_stable(out, less, Ghost(local_before())), limit)
}

/// How many candidates are looked at for `limit` results: ten times as many, within
/// bounds.
pub open spec fn candidates_for(limit: nat) -> nat {
    if limit * 10 < 100 {
        100
    } else if limit * 10 > 1000 {
        1000
    } else {
        limit * 10
    }
}

/// How many candidates are looked at, or nothing where the search is empty.
pub fn candidate_limit(query: &str, limit: usize) -> (r: Option<usize>)
    ensures
        trim(query@).len() == 0 || limit == 0 ==> r is None,
        trim(query@).len() > 0 && limit > 0 ==> r is Some && r->0 == candidates_for(limit as nat),
{
    let t = trimmed(query);
    if t.as_str().is_empty() || limit == 0 {
        return None;
    }
    if limit < 10 {
        Some(100)
    } else if limit > 100 {
        Some(1000)
    } else {
        Some(limit * 10)
    }
}

/// Whether `r` is the best `limit` of the candidates that have a score.
pub open spec fn is_ranking(
    r: Seq<SearchHit>,
    found: Seq<DriveCandidate>,
    hits: Seq<SearchHit>,
    limit: nat,
    pinned: Seq<String>,
    roots: Seq<(String, String)>,
) -> bool {
    &&& hits.len() == scored(found).len()
    &&& forall|i: int|
        0 <= i < hits.len() ==> is_hit(
            #[trigger] hits[i],
            scored(found)[i],
            scored(found)[i].score->0 as int,
            true,
            pinned,
            roots,
        )
    &&& r == at_most(stable_sort(hits, hit_before()), limit)
}

proof fn lemma_drive_best(
    found: Seq<DriveCandidate>,
    all: Seq<SearchHit>,
    first: Seq<SearchHit>,
    limit: usize,
    pinned: Seq<String>,
    roots: Seq<(String, String)>,
)
    requires
        is_ranking(first, found, all, limit as nat, pinned, roots),
        forall|k: int|
            0 <= k < all.len() ==> first.contains(#[trigger] all[k]) || forall|i: int|
                0 <= i < first.len() ==> (#[trigger] first[i]).score >= all[k].score,
        forall|i: int| 0 <= i < first.len() ==> all.contains(#[trigger] first[i]),
    ensures
        forall|k: int|
            0 <= k < found.len() && (#[trigger] found[k]).score is Some ==> (exists|i: int|
                0 <= i < first.len() && (#[trigger] first[i]).uid == found[k].uid && first[i].path
                    == found[k].path && first[i].score - (if exists|p: int|
                    0 <= p < pinned.len() && (#[trigger] pinned[p])@ == found[k].uid@ {
                    PIN_BONUS as int
                } else {
                    0
                }) == found[k].score->0) || (first.len() == limit && forall|i: int|
                0 <= i < first.len() ==> (#[trigger] first[i]).score >= found[k].score->0 + (
                if exists|p: int|
                    0 <= p < pinned.len() && (#[trigger] pinned[p])@ == found[k].uid@ {
                    PIN_BONUS as int
                } else {
                    0
                })),
        forall|h: SearchHit| #[trigger]
            first.contains(h) ==> exists|k: int|
                0 <= k < found.len() && (#[trigger] found[k]).score is Some && found[k].uid == h.uid
                    && found[k].path == h.path && found[k].name == h.name,
{
    let f = |c: DriveCandidate| c.score is Some;
    let left = scored(found);
    assert(left == found.filter(f));
    assert forall|k: int| 0 <= k < found.len() && (#[trigger] found[k]).score is Some implies (
    exists|i: int|
        0 <= i < first.len() && (#[trigger] first[i]).uid == found[k].uid && first[i].path
            == found[k].path && first[i].score - (if exists|p: int|
            0 <= p < pinned.len() && (#[trigger] pinned[p])@ == found[k].uid@ {
            PIN_BONUS as int
        } else {
            0
        }) == found[k].score->0) || (first.len() == limit && forall|i: int|
        0 <= i < first.len() ==> (#[trigger] first[i]).score >= found[k].score->0 + (if exists|
            p: int,
        |
            0 <= p < pinned.len() && (#[trigger] pinned[p])@ == found[k].uid@ {
            PIN_BONUS as int
        } else {
            0
        })) by {
        found.lemma_filter_contains(f, k);
        let m = choose|m: int| 0 <= m < left.len() && left[m] == found[k];
        assert(is_hit(all[m], left[m], left[m].score->0 as int, true, pinned, roots));
        if first.contains(all[m]) {
            let i = choose|i: int| 0 <= i < first.len() && first[i] == all[m];
            assert(first[i].uid == found[k].uid);
        } else if all.len() <= limit {
            lemma_sort_has(all, hit_before());
            assert(first == stable_sort(all, hit_before()));
        } else {
            lemma_sort_has(all, hit_before());
            assert(first.len() == limit);
        }
    }
    assert forall|h: SearchHit| #[trigger] first.contains(h) implies exists|k: int|
        0 <= k < found.len() && (#[trigger] found[k]).score is Some && found[k].uid == h.uid
            && found[k].path == h.path && found[k].name == h.name by {
        let i = choose|i: int| 0 <= i < first.len() && first[i] == h;
        assert(all.contains(first[i]));
        let m = choose|m: int| 0 <= m < all.len() && all[m] == first[i];
        assert(is_hit(all[m], left[m], left[m].score->0 as int, true, pinned, roots));
        assert(left.contains(left[m]));
        found.lemma_filter_contains_rev(f, left[m]);
        found.lemma_filter_pred(f, m);
        let k = choose|k: int| 0 <= k < found.len() && found[k] == left[m];
        assert(found[k].uid == first[i].uid);
    }
}

/// Search both sources with the same query and the same limit for each. An empty
/// query finds nothing.
pub fn search_v2(
    query: &str,
    limit: usize,
    drive: Vec<DriveCandidate>,
    local: Vec<LocalCandidate>,
    pinned: &Vec<String>,
    roots: &SearchRoots,
) -> (r: (Vec<SearchHit>, Vec<LocalHit>))
    requires
        forall|i: int|
            0 <= i < drive@.len() && (#[trigger] drive@[i]).score is Some ==> drive@[i].score->0
                <= i64::MAX - PIN_BONUS,
    ensures
        trim(query@).len() == 0 || limit == 0 ==> r.0@.len() == 0 && r.1@.len() == 0,
        trim(query@).len() > 0 && limit > 0 ==> (exists|hits: Seq<SearchHit>| #[trigger]
            is_ranking(r.0@, drive@, hits, limit as nat, pinned@, roots.roots@)) && r.1@
            == at_most(stable_sort(local_hits_of(local@), local_before()), limit as nat),
        // In both lists the best comes first.
        r.0@.len() <= limit,
        r.1@.len() <= limit,
        forall|i: int, j: int|
            #![trigger r.0@[i], r.0@[j]]
            0 <= i < j < r.0@.len() ==> {
                &&& r.0@[i].score >= r.0@[j].score
                &&& r.0@[i].score == r.0@[j].score ==> !text_lt(r.0@[j].name@, r.0@[i].name@)
                &&& r.0@[i].score == r.0@[j].score && r.0@[i].name@ == r.0@[j].name@ ==> !text_lt(
                    r.0@[j].path@,
                    r.0@[i].path@,
                )
            },
        forall|i: int, j: int|
            #![trigger r.1@[i], r.1@[j]]
            0 <= i < j < r.1@.len() ==> {
                &&& r.1@[i].score >= r.1@[j].score
                &&& r.1@[i].score == r.1@[j].score ==> !text_lt(r.1@[j].name@, r.1@[i].name@)
                &&& r.1@[i].score == r.1@[j].score && r.1@[i].name@ == r.1@[j].name@ ==> !text_lt(
                    r.1@[j].path@,
                    r.1@[i].path@,
                )
            },
        // What has a score and is left out is no better than what is kept, and the limit
        // leaves it out.
        trim(query@).len() > 0 ==> forall|k: int|
            0 <= k < drive@.len() && (#[trigger] drive@[k]).score is Some ==> (exists|i: int|
                0 <= i < r.0@.len() && (#[trigger] r.0@[i]).uid == drive@[k].uid && r.0@[i].path
                    == drive@[k].path && r.0@[i].score - (if exists|p: int|
                    0 <= p < pinned@.len() && (#[trigger] pinned@[p])@ == drive@[k].uid@ {
                    PIN_BONUS as int
                } else {
                    0
                }) == drive@[k].score->0) || (r.0@.len() == limit && forall|i: int|
                0 <= i < r.0@.len() ==> (#[trigger] r.0@[i]).score >= drive@[k].score->0 + (
                if exists|p: int|
                    0 <= p < pinned@.len() && (#[trigger] pinned@[p])@ == drive@[k].uid@ {
                    PIN_BONUS as int
                } else {
                    0
                })),
        forall|h: SearchHit| #[trigger]
            r.0@.contains(h) ==> exists|k: int|
                0 <= k < drive@.len() && (#[trigger] drive@[k]).score is Some && drive@[k].uid
                    == h.uid && drive@[k].path == h.path && drive@[k].name == h.name,
        trim(query@).len() > 0 ==> forall|k: int|
            0 <= k < local@.len() && (#[trigger] local@[k]).score is Some ==> (exists|i: int|
                0 <= i < r.1@.len() && (#[trigger] r.1@[i]).path == local@[k].path && r.1@[i].name
                    == local@[k].name && r.1@[i].score == local@[k].score->0) || (r.1@.len()
                == limit && forall|i: int|
                0 <= i < r.1@.len() ==> (#[trigger] r.1@[i]).score >= local@[k].score->0),
        forall|h: LocalHit| #[trigger]
            r.1@.contains(h) ==> exists|k: int|
                0 <= k < local@.len() && (#[trigger] local@[k]).score == Some(h.score)
                    && local@[k].path == h.path && local@[k].name == h.name,
{
    if candidate_limit(query, limit).is_none() {
        return (Vec::new(), Vec::new());
    }
    let ghost found = drive@;
    let hits = drive_hits(drive, pinned, roots);
    let ghost all = hits@;
    let first = rank_hits(hits, limit);
    proof {
        lemma_drive_best(found, all, first@, limit, pinned@, roots.roots@);
    }
    assert(is_ranking(first@, drive@, all, limit as nat, pinned@, roots.roots@));
    let second = rank_local(local, limit);
    let r = (first, second);
    assert(is_ranking(r.0@, drive@, all, limit as nat, pinned@, roots.roots@));
    r
}

/// A path that is joined to a folder stands below it, with one separator between; one that
/// begins at the top stands alone.
pub proof fn law_joined_paths_stand_below(dir: Seq<char>, rest: Seq<char>)
    ensures
        rest.len() > 0 && rest[0] == '/' ==> joined(dir, rest) == rest,
        (rest.len() == 0 || rest[0] != '/') && dir.len() > 0 && dir.last() != '/' ==> joined(
            dir,
            rest,
        ) == dir + seq!['/'] + rest,
        (rest.len() == 0 || rest[0] != '/') && (dir.len() == 0 || dir.last() == '/') ==> joined(
            dir,
            rest,
        ) == dir + rest,
        (rest.len() == 0 || rest[0] != '/') ==> dir.is_prefix_of(joined(dir, rest)),
        rest.is_suffix_of(joined(dir, rest)),
{
    reveal_strlit("/");
    assert("/"@ =~= seq!['/']);
}

/// A hit is opened through a root that it lies below, at the place it has there; and through
/// one wherever there is one.
pub proof fn law_hits_open_below_their_root(roots: Seq<(String, String)>, path: Seq<char>)
    ensures
        resolved(roots, path) is Some ==> exists|i: int|
            0 <= i < roots.len() && relative((#[trigger] roots[i]).0@, path) is Some && resolved(
                roots,
                path,
            )->0 == joined(roots[i].1@, relative(roots[i].0@, path)->0),
        resolved(roots, path) is None ==> forall|i: int|
            0 <= i < roots.len() ==> relative((#[trigger] roots[i]).0@, path) is None,
{
    lemma_best_root(roots, path);
    match best_root(roots, path) {
        Some(b) => {
            assert(relative(roots[b].0@, path) is Some);
        },
        None => {
            assert forall|i: int| 0 <= i < roots.len() implies relative(
                (#[trigger] roots[i]).0@,
                path,
            ) is None by {
                assert(depth_below(roots[i].0@, path) is None);
            }
        },
    }
}

/// The roots of a search are the folders that can be opened and whose place is known, in
/// order: a mirrored one always, and one on demand while it is mounted.
pub proof fn law_search_roots_can_be_opened(all: Seq<RootCandidate>)
    ensures
        roots_of(all) == all.filter(
            |c: RootCandidate|
                c.drive_path is Some && (c.folder.mode@ == "mirror"@ || (c.folder.mode@
                    == "ondemand"@ && c.mounted)),
        ).map_values(|c: RootCandidate| (c.drive_path->0, c.folder.local_path)),
    decreases all.len(),
{
    reveal(Seq::filter);
    reveal_strlit("mirror");
    reveal_strlit("ondemand");
    assert("mirror"@[0] == 'm');
    assert("ondemand"@[0] == 'o');
    let keep = |c: RootCandidate|
        c.drive_path is Some && (c.folder.mode@ == "mirror"@ || (c.folder.mode@ == "ondemand"@
            && c.mounted));
    if all.len() > 0 {
        law_search_roots_can_be_opened(all.drop_last());
        assert(is_root(all.last()) == keep(all.last()));
    }
    assert(roots_of(all) =~= all.filter(
        |c: RootCandidate|
            c.drive_path is Some && (c.folder.mode@ == "mirror"@ || (c.folder.mode@ == "ondemand"@
                && c.mounted)),
    ).map_values(|c: RootCandidate| (c.drive_path->0, c.folder.local_path)));
}

/// A hit tells of its candidate, and gains a bonus only for a pin of its own.
pub proof fn law_hits_tell_of_their_candidate(
    hit: SearchHit,
    c: DriveCandidate,
    base: int,
    bonus: bool,
    pinned: Seq<String>,
    roots: Seq<(String, String)>,
)
    requires
        is_hit(hit, c, base, bonus, pinned, roots),
    ensures
        hit.name == c.name && hit.uid == c.uid && hit.path == c.path,
        hit.size == c.size && hit.modified == c.modified && hit.is_dir == c.is_dir,
        hit.pinned <==> exists|i: int|
            0 <= i < pinned.len() && (#[trigger] pinned[i])@ == c.uid@,
        hit.pinned && bonus ==> hit.score == base + PIN_BONUS,
        !hit.pinned || !bonus ==> hit.score == base,
        hit.mounted_path is Some <==> resolved(roots, c.path@) is Some,
{
}

/// A hit on this machine tells of its candidate, with no size below nothing.
pub proof fn law_local_hits_tell_of_their_candidate(c: LocalCandidate, score: i64)
    ensures
        local_hit(c, score).name == c.name && local_hit(c, score).path == c.path,
        local_hit(c, score).is_dir == c.is_dir && local_hit(c, score).modified == c.mtime,
        local_hit(c, score).score == score,
        c.size >= 0 ==> local_hit(c, score).size == c.size,
        c.size < 0 ==> local_hit(c, score).size == 0,
{
}

/// More candidates are looked at than are shown, within bounds, and never fewer for more.
pub proof fn law_candidates_follow_the_limit(a: nat, b: nat)
    ensures
        100 <= candidates_for(a) <= 1000,
        a <= 100 ==> candidates_for(a) >= 10 * a,
        10 <= a <= 100 ==> candidates_for(a) == 10 * a,
        a <= b ==> candidates_for(a) <= candidates_for(b),
{
}

/// Of several roots that a hit lies equally deep below, the first counts.
pub proof fn law_first_of_equal_roots_counts(roots: Seq<(String, String)>, path: Seq<char>, i: int)
    requires
        best_root(roots, path) is Some,
        0 <= i < best_root(roots, path)->0,
        depth_below(roots[i].0@, path) is Some,
    ensures
        depth_below(roots[i].0@, path)->0 > depth_below(
            roots[best_root(roots, path)->0].0@,
            path,
        )->0,
    decreases roots.len(),
{
    let rest = roots.drop_last();
    lemma_best_root(roots, path);
    lemma_best_root(rest, path);
    let b = best_root(roots, path)->0;
    assert(rest[i] == roots[i]);
    if best_root(rest, path) is Some {
        let c = best_root(rest, path)->0;
        assert(rest[c] == roots[c]);
        if b == c {
            law_first_of_equal_roots_counts(rest, path, i);
        }
    }
}

/// A path lies below a root by as many names as stand between them, and the root itself by
/// none.
pub proof fn law_depth_counts_names(root: Seq<char>, path: Seq<char>)
    ensures
        depth_below(root, path) is Some <==> relative(root, path) is Some,
        depth_below(root, root) == Some(0nat),
        depth_below(root, path) is Some && relative(root, path)->0.len() > 0 ==> depth_below(
            root,
            path,
        )->0 == split(relative(root, path)->0, '/').len(),
{
    if root.len() == 0 {
        assert(root =~= Seq::<char>::empty());
    }
}

} // verus!

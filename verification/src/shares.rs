//! Incoming shares: which listing rows are believed, and what access a share
//! root gets.
//!
//! Access is only granted on proof. Rows that disagree, a membership of another
//! share, a role that is not known exactly: each leaves the root read-only.

use crate::access::{access_for, role_access, Access};
use crate::listing::uids;
use crate::node::Node;
use crate::sorting::{
    law_stable_sort_sorts, law_text_order_is_irreflexive, law_text_order_is_total, lemma_sort_has,
    lemma_text_chain, sort_stable, stable_sort, strict_weak, text_less, text_lt,
};
use crate::uid::{same_uid, NodeUid, Uid};
use crate::uidmap::UidMap;
use vstd::prelude::*;

verus! {

/// One row of the shared-with-me listing.
#[derive(Debug)]
pub struct SharedWithMeItem {
    pub uid: NodeUid,
    pub share_id: String,
}

/// The shares that the listing names.
pub struct AcceptedShares {
    /// Every node once, in the order of its first row.
    pub uids: Vec<NodeUid>,
    /// The share each node comes from; `None` where its rows disagree.
    pub share_ids: UidMap<Option<String>>,
}

/// The nodes that rows name, each once, in the order of first mention.
pub open spec fn first_named(items: Seq<SharedWithMeItem>) -> Seq<Uid>
    decreases items.len(),
{
    if items.len() == 0 {
        seq![]
    } else {
        let rest = first_named(items.drop_last());
        if rest.contains(items.last().uid@) {
            rest
        } else {
            rest.push(items.last().uid@)
        }
    }
}

/// Whether every row of `uid` names the share `share`.
pub open spec fn rows_agree(items: Seq<SharedWithMeItem>, uid: Uid, share: Seq<char>) -> bool {
    forall|i: int|
        0 <= i < items.len() && (#[trigger] items[i]).uid@ == uid ==> items[i].share_id@ == share
}

/// Whether some row names `uid`.
pub open spec fn is_named(items: Seq<SharedWithMeItem>, uid: Uid) -> bool {
    exists|i: int| 0 <= i < items.len() && (#[trigger] items[i]).uid@ == uid
}

proof fn lemma_first_named(items: Seq<SharedWithMeItem>, uid: Uid)
    ensures
        first_named(items).contains(uid) == is_named(items, uid),
        first_named(items).no_duplicates(),
    decreases items.len(),
{
    if items.len() > 0 {
        let rest = items.drop_last();
        lemma_first_named(rest, uid);
        let f = first_named(rest);
        let last = items.last().uid@;
        if is_named(items, uid) {
            let i = choose|i: int| 0 <= i < items.len() && (#[trigger] items[i]).uid@ == uid;
            if i < rest.len() {
                assert(rest[i].uid@ == uid);
            }
        }
        if is_named(rest, uid) {
            let i = choose|i: int| 0 <= i < rest.len() && (#[trigger] rest[i]).uid@ == uid;
            assert(items[i].uid@ == uid);
        }
        assert(items[items.len() - 1].uid@ == last);
        if !f.contains(last) {
            let g = f.push(last);
            if f.contains(uid) {
                let i = choose|i: int| 0 <= i < f.len() && f[i] == uid;
                assert(g[i] == uid);
            }
            if g.contains(uid) {
                let i = choose|i: int| 0 <= i < g.len() && g[i] == uid;
                if i < f.len() {
                    assert(f[i] == uid);
                }
            }
            if uid == last {
                assert(g[f.len() as int] == uid);
            }
            assert forall|i: int, j: int|
                0 <= i < g.len() && 0 <= j < g.len() && i != j implies g[i] != g[j] by {
                if i < f.len() {
                    assert(f.contains(f[i]));
                }
                if j < f.len() {
                    assert(f.contains(f[j]));
                }
            }
        }
    }
}

/// What is known of where the share `uid` comes from, after `items`.
pub open spec fn provenance_is(
    items: Seq<SharedWithMeItem>,
    uid: Uid,
    known: Option<String>,
) -> bool {
    match known {
        Some(share) => rows_agree(items, uid, share@),
        None => forall|share: Seq<char>| !#[trigger] rows_agree(items, uid, share),
    }
}

proof fn lemma_provenance_push(
    items: Seq<SharedWithMeItem>,
    item: SharedWithMeItem,
    uid: Uid,
    known: Option<String>,
)
    requires
        provenance_is(items, uid, known),
    ensures
        uid != item.uid@ ==> provenance_is(items.push(item), uid, known),
        uid == item.uid@ && known is Some && known->0@ == item.share_id@ ==> provenance_is(
            items.push(item),
            uid,
            known,
        ),
        uid == item.uid@ && known is None ==> provenance_is(items.push(item), uid, None),
        uid == item.uid@ && known is Some && known->0@ != item.share_id@ && is_named(items, uid)
            ==> provenance_is(items.push(item), uid, None),
{
    let all = items.push(item);
    assert forall|share: Seq<char>| #[trigger] rows_agree(all, uid, share) == (rows_agree(
        items,
        uid,
        share,
    ) && (uid == item.uid@ ==> item.share_id@ == share)) by {
        if rows_agree(all, uid, share) {
            assert forall|i: int| 0 <= i < items.len() && (#[trigger] items[i]).uid@ == uid implies
                items[i].share_id@ == share by {
                assert(all[i] == items[i]);
            }
            assert(all[items.len() as int] == item);
        }
        if rows_agree(items, uid, share) && (uid == item.uid@ ==> item.share_id@ == share) {
            assert forall|i: int| 0 <= i < all.len() && (#[trigger] all[i]).uid@ == uid implies
                all[i].share_id@ == share by {
                if i < items.len() {
                    assert(items[i] == all[i]);
                }
            }
        }
    }
    if uid == item.uid@ && known is Some && known->0@ != item.share_id@ && is_named(items, uid) {
        let k = choose|k: int| 0 <= k < items.len() && (#[trigger] items[k]).uid@ == uid;
        assert(items[k].share_id@ == known->0@);
        assert forall|share: Seq<char>| !#[trigger] rows_agree(all, uid, share) by {
            if rows_agree(items, uid, share) {
                assert(items[k].share_id@ == share);
            }
        }
    }
    if known is None {
        assert forall|share: Seq<char>| !#[trigger] rows_agree(all, uid, share) by {
            assert(!rows_agree(items, uid, share));
        }
    }
}

/// Read the shared-with-me listing. A node that several rows name is kept once;
/// where the rows disagree on the share, it comes from none.
pub fn accepted_share_provenance(items: &Vec<SharedWithMeItem>) -> (r: AcceptedShares)
    ensures
        uids(r.uids@) == first_named(items@),
        forall|u: Uid| #[trigger] r.share_ids@.contains_key(u) <==> is_named(items@, u),
        forall|u: Uid| #[trigger]
            r.share_ids@.contains_key(u) ==> provenance_is(items@, u, r.share_ids@[u]),
{
    let mut found: Vec<NodeUid> = Vec::new();
    let mut share_ids: UidMap<Option<String>> = UidMap::new();
    let mut i: usize = 0;
    proof {
        assert(items@.take(0) =~= Seq::<SharedWithMeItem>::empty());
        assert(uids(found@) =~= Seq::<Uid>::empty());
    }
    while i < items.len()
        invariant
            i <= items@.len(),
            uids(found@) == first_named(items@.take(i as int)),
            forall|u: Uid| #[trigger]
                share_ids@.contains_key(u) <==> is_named(items@.take(i as int), u),
            forall|u: Uid| #[trigger]
                share_ids@.contains_key(u) ==> provenance_is(
                    items@.take(i as int),
                    u,
                    share_ids@[u],
                ),
        decreases items@.len() - i,
    {
        let ghost part = items@.take(i as int);
        let ghost next = items@.take(i + 1);
        let ghost before = share_ids@;
        let item = &items[i];
        proof {
            assert(next =~= part.push(*item));
            assert(next.drop_last() =~= part);
            lemma_first_named(part, item.uid@);
            assert forall|u: Uid| #[trigger] is_named(next, u) == (is_named(part, u) || u
                == item.uid@) by {
                lemma_first_named(part, u);
                if is_named(part, u) {
                    let k = choose|k: int| 0 <= k < part.len() && (#[trigger] part[k]).uid@ == u;
                    assert(next[k].uid@ == u);
                }
                if is_named(next, u) {
                    let k = choose|k: int| 0 <= k < next.len() && (#[trigger] next[k]).uid@ == u;
                    if k < part.len() {
                        assert(part[k].uid@ == u);
                    }
                }
                if u == item.uid@ {
                    assert(next[i as int].uid@ == u);
                }
            }
            assert forall|u: Uid| #[trigger] before.contains_key(u) && u != item.uid@ implies provenance_is(
                next,
                u,
                before[u],
            ) by {
                lemma_provenance_push(part, *item, u, before[u]);
            }
        }
        let (seen, agrees) = match share_ids.get(&item.uid) {
            None => (false, false),
            Some(known) => match known {
                None => (true, false),
                Some(share) => (true, *share == item.share_id),
            },
        };
        if !seen {
            let ghost had = found@;
            found.push(item.uid.clone());
            share_ids.insert(item.uid.clone(), Some(item.share_id.clone()));
            proof {
                assert(uids(found@) =~= uids(had).push(item.uid@));
                assert(!is_named(part, item.uid@));
                assert(rows_agree(next, item.uid@, item.share_id@)) by {
                    assert forall|k: int|
                        0 <= k < next.len() && (#[trigger] next[k]).uid@
                            == item.uid@ implies next[k].share_id@ == item.share_id@ by {
                        if k < part.len() {
                            assert(part[k].uid@ == item.uid@);
                        }
                    }
                }
            }
        } else {
            proof {
                lemma_provenance_push(part, *item, item.uid@, before[item.uid@]);
            }
            if !agrees {
                share_ids.insert(item.uid.clone(), None);
            }
        }
        i = i + 1;
    }
    assert(items@.take(i as int) =~= items@);
    AcceptedShares { uids: found, share_ids }
}

/// The access that one node's own membership proves in the share `expected`.
pub open spec fn membership_access(node: Node, expected: Seq<char>) -> Option<Access> {
    match node.membership {
        None => None,
        Some(m) => if m.share_id@ != expected {
            None
        } else {
            match m.role {
                None => None,
                Some(role) => Some(role_access(role, Access::Viewer)),
            }
        },
    }
}

/// The access of a share root: what every one of its nodes proves alike in the
/// expected share, and read-only otherwise.
pub open spec fn root_access(nodes: Seq<Node>, expected: Option<String>) -> Access {
    match expected {
        None => Access::Viewer,
        Some(share) => if nodes.len() > 0 && membership_access(nodes[0], share@) is Some && forall|
            i: int,
        |
            0 <= i < nodes.len() ==> membership_access(#[trigger] nodes[i], share@)
                == membership_access(nodes[0], share@) {
            membership_access(nodes[0], share@)->0
        } else {
            Access::Viewer
        },
    }
}

fn proven_access(node: &Node, expected: &String) -> (r: Option<Access>)
    ensures
        r == membership_access(*node, expected@),
{
    match &node.membership {
        None => None,
        Some(m) => {
            if m.share_id != *expected {
                return None;
            }
            match m.role {
                None => None,
                Some(role) => Some(access_for(role, Access::Viewer)),
            }
        },
    }
}

/// The access that the nodes `nodes[from..to]` of one share root prove.
pub fn shared_root_access(
    nodes: &Vec<Node>,
    from: usize,
    to: usize,
    expected_share: &Option<String>,
) -> (r: Access)
    requires
        from <= to <= nodes@.len(),
    ensures
        r == root_access(nodes@.subrange(from as int, to as int), *expected_share),
{
    let share = match expected_share {
        None => {
            return Access::Viewer;
        },
        Some(s) => s,
    };
    let ghost group = nodes@.subrange(from as int, to as int);
    if from == to {
        return Access::Viewer;
    }
    assert(group[0] == nodes@[from as int]);
    let first: Access = match proven_access(&nodes[from], share) {
        None => {
            return Access::Viewer;
        },
        Some(a) => a,
    };
    let mut i: usize = from + 1;
    while i < to
        invariant
            from < i <= to <= nodes@.len(),
            group == nodes@.subrange(from as int, to as int),
            *expected_share == Some(*share),
            membership_access(group[0], share@) == Some(first),
            forall|j: int|
                0 <= j < i - from ==> membership_access(#[trigger] group[j], share@) == Some(first),
        decreases to - i,
    {
        assert(group[i - from] == nodes@[i as int]);
        match proven_access(&nodes[i], share) {
            None => {
                return Access::Viewer;
            },
            Some(a) => {
                if a != first {
                    return Access::Viewer;
                }
            },
        }
        i = i + 1;
    }
    first
}

/// A share root as it is published.
pub struct PublishedSharedRoot {
    pub node: Node,
    pub access: Access,
}

/// The order in which the rows of share roots are read: by written uid, then by
/// name.
pub open spec fn row_before(a: Node, b: Node) -> bool {
    text_lt(a.uid@.text(), b.uid@.text()) || (a.uid@.text() == b.uid@.text() && text_lt(
        a.name@,
        b.name@,
    ))
}

fn row_is_before(a: &Node, b: &Node) -> (r: bool)
    ensures
        r == row_before(*a, *b),
{
    let x = a.uid.to_text();
    let y = b.uid.to_text();
    text_less(x.as_str(), y.as_str()) || (x == y && text_less(a.name.as_str(), b.name.as_str()))
}

/// The nodes that the listing names, in order.
pub open spec fn named_nodes(nodes: Seq<Node>, accepted: Map<Uid, Option<String>>) -> Seq<Node>
    decreases nodes.len(),
{
    if nodes.len() == 0 {
        seq![]
    } else if accepted.contains_key(nodes.last().uid@) {
        named_nodes(nodes.drop_last(), accepted).push(nodes.last())
    } else {
        named_nodes(nodes.drop_last(), accepted)
    }
}

/// Where the run of rows that begins at `start` ends.
pub open spec fn run_end(rows: Seq<Node>, start: int, at: int) -> int
    decreases rows.len() - at,
{
    if at < rows.len() && rows[at].uid@ == rows[start].uid@ {
        run_end(rows, start, at + 1)
    } else {
        at
    }
}

proof fn lemma_run_end(rows: Seq<Node>, start: int, at: int)
    requires
        0 <= start <= at <= rows.len(),
    ensures
        at <= run_end(rows, start, at) <= rows.len(),
    decreases rows.len() - at,
{
    if at < rows.len() && rows[at].uid@ == rows[start].uid@ {
        lemma_run_end(rows, start, at + 1);
    }
}

/// The roots that the rows from `start` on publish: one per run of equal uids,
/// with the run's first row as the node.
pub open spec fn roots_from(
    rows: Seq<Node>,
    start: int,
    accepted: Map<Uid, Option<String>>,
    parent: NodeUid,
) -> Seq<PublishedSharedRoot>
    decreases rows.len() - start,
    via roots_from_decreases
{
    if start < 0 || start >= rows.len() {
        seq![]
    } else {
        let end = run_end(rows, start, start + 1);
        seq![
            PublishedSharedRoot {
                node: Node { parent_uid: Some(parent), trashed: false, ..rows[start] },
                access: root_access(rows.subrange(start, end), accepted[rows[start].uid@]),
            },
        ] + roots_from(rows, end, accepted, parent)
    }
}

#[via_fn]
proof fn roots_from_decreases(
    rows: Seq<Node>,
    start: int,
    accepted: Map<Uid, Option<String>>,
    parent: NodeUid,
) {
    if 0 <= start < rows.len() {
        lemma_run_end(rows, start, start + 1);
    }
}

/// The roots that a materialized listing publishes.
pub open spec fn roots_of(
    nodes: Seq<Node>,
    accepted: Map<Uid, Option<String>>,
    parent: NodeUid,
) -> Seq<PublishedSharedRoot> {
    roots_from(
        stable_sort(named_nodes(nodes, accepted), |a: Node, b: Node| row_before(a, b)),
        0,
        accepted,
        parent,
    )
}

proof fn lemma_named(nodes: Seq<Node>, accepted: Map<Uid, Option<String>>)
    ensures
        forall|i: int|
            0 <= i < named_nodes(nodes, accepted).len() ==> accepted.contains_key(
                (#[trigger] named_nodes(nodes, accepted)[i]).uid@,
            ),
    decreases nodes.len(),
{
    if nodes.len() > 0 {
        lemma_named(nodes.drop_last(), accepted);
        let rest = named_nodes(nodes.drop_last(), accepted);
        let all = named_nodes(nodes, accepted);
        assert forall|i: int| 0 <= i < all.len() implies accepted.contains_key(
            (#[trigger] all[i]).uid@,
        ) by {
            if i < rest.len() {
                assert(all[i] == rest[i]);
            }
        }
    }
}

proof fn lemma_sorted_named(s: Seq<Node>, accepted: Map<Uid, Option<String>>, lt: spec_fn(Node, Node) -> bool)
    requires
        forall|i: int| 0 <= i < s.len() ==> accepted.contains_key((#[trigger] s[i]).uid@),
    ensures
        forall|i: int|
            0 <= i < stable_sort(s, lt).len() ==> accepted.contains_key(
                (#[trigger] stable_sort(s, lt)[i]).uid@,
            ),
    decreases s.len(),
{
    if s.len() > 0 {
        let rest = s.drop_last();
        assert forall|i: int| 0 <= i < rest.len() implies accepted.contains_key(
            (#[trigger] rest[i]).uid@,
        ) by {
            assert(s[i] == rest[i]);
        }
        lemma_sorted_named(rest, accepted, lt);
        let r = stable_sort(rest, lt);
        let p = crate::sorting::insert_pos(r, s.last(), lt);
        crate::sorting::lemma_insert_pos(r, s.last(), lt);
        let out = r.insert(p, s.last());
        assert(accepted.contains_key(s[s.len() - 1].uid@));
        assert forall|i: int| 0 <= i < out.len() implies accepted.contains_key(
            (#[trigger] out[i]).uid@,
        ) by {
            if i < p {
                assert(out[i] == r[i]);
            } else if i > p {
                assert(out[i] == r[i - 1]);
            }
        }
    }
}

/// Prepare the share roots for publication: rows that the listing does not name
/// are ignored, rows of one node are read together, and each root is placed
/// below the synthetic directory with the access that its rows prove.
pub fn prepare_shared_roots(
    accepted: &AcceptedShares,
    materialized: &Vec<Node>,
    parent: &NodeUid,
) -> (r: Vec<PublishedSharedRoot>)
    ensures
        r@ == roots_of(materialized@, accepted.share_ids@, *parent),
{
    let ghost known = accepted.share_ids@;
    let mut named: Vec<Node> = Vec::new();
    let mut i: usize = 0;
    assert(materialized@.take(0) =~= Seq::<Node>::empty());
    while i < materialized.len()
        invariant
            i <= materialized@.len(),
            known == accepted.share_ids@,
            named@ == named_nodes(materialized@.take(i as int), known),
        decreases materialized@.len() - i,
    {
        assert(materialized@.take(i + 1).drop_last() =~= materialized@.take(i as int));
        if accepted.share_ids.contains_key(&materialized[i].uid) {
            named.push(materialized[i].clone());
        }
        i = i + 1;
    }
    assert(materialized@.take(i as int) =~= materialized@);
    proof {
        lemma_named(materialized@, known);
        lemma_sorted_named(named@, known, |a: Node, b: Node| row_before(a, b));
    }
    let before = |a: &Node, b: &Node| -> (first: bool)
        ensures
            (first == row_before(*a, *b)),
        { row_is_before(a, b) };
    let rows = sort_stable(named, before, Ghost(|a: Node, b: Node| row_before(a, b)));
    let mut r: Vec<PublishedSharedRoot> = Vec::new();
    let mut start: usize = 0;
    assert(r@ + roots_from(rows@, 0, known, *parent) =~= roots_from(rows@, 0, known, *parent));
    while start < rows.len()
        invariant
            start <= rows@.len(),
            known == accepted.share_ids@,
            forall|k: int| 0 <= k < rows@.len() ==> known.contains_key((#[trigger] rows@[k]).uid@),
            roots_from(rows@, 0, known, *parent) == r@ + roots_from(
                rows@,
                start as int,
                known,
                *parent,
            ),
        decreases rows@.len() - start,
    {
        let mut end: usize = start + 1;
        while end < rows.len() && same_uid(&rows[end].uid, &rows[start].uid)
            invariant
                start < end <= rows@.len(),
                run_end(rows@, start as int, start + 1) == run_end(
                    rows@,
                    start as int,
                    end as int,
                ),
            decreases rows@.len() - end,
        {
            end = end + 1;
        }
        assert(known.contains_key(rows@[start as int].uid@));
        let access = match accepted.share_ids.get(&rows[start].uid) {
            None => Access::Viewer,
            Some(expected) => shared_root_access(&rows, start, end, expected),
        };
        let mut node = rows[start].clone();
        node.parent_uid = Some(parent.clone());
        node.trashed = false;
        let ghost before = r@;
        let root = PublishedSharedRoot { node, access };
        r.push(root);
        proof {
            assert(end == run_end(rows@, start as int, start + 1));
            assert(before + (seq![root] + roots_from(rows@, end as int, known, *parent)) =~= r@
                + roots_from(rows@, end as int, known, *parent));
        }
        start = end;
    }
    assert(r@ + roots_from(rows@, start as int, known, *parent) =~= r@);
    r
}

/// Give the roots the names under which they can be told apart.
pub fn rename_shared_roots(roots: &mut Vec<PublishedSharedRoot>, names: &UidMap<String>)
    ensures
        final(roots)@.len() == old(roots)@.len(),
        forall|i: int|
            0 <= i < old(roots)@.len() ==> #[trigger] final(roots)@[i] == (if names@.contains_key(
                old(roots)@[i].node.uid@,
            ) {
                PublishedSharedRoot {
                    node: Node {
                        name: names@[old(roots)@[i].node.uid@],
                        ..old(roots)@[i].node
                    },
                    ..old(roots)@[i]
                }
            } else {
                old(roots)@[i]
            }),
{
    let ghost before = roots@;
    let mut i: usize = 0;
    while i < roots.len()
        invariant
            i <= roots@.len(),
            roots@.len() == before.len(),
            forall|k: int| i <= k < before.len() ==> #[trigger] roots@[k] == before[k],
            forall|k: int|
                0 <= k < i ==> #[trigger] roots@[k] == (if names@.contains_key(
                    before[k].node.uid@,
                ) {
                    PublishedSharedRoot {
                        node: Node { name: names@[before[k].node.uid@], ..before[k].node },
                        ..before[k]
                    }
                } else {
                    before[k]
                }),
        decreases roots@.len() - i,
    {
        assert(roots@[i as int] == before[i as int]);
        let name = match names.get(&roots[i].node.uid) {
            Some(n) => Some(n.clone()),
            None => None,
        };
        match name {
            Some(n) => {
                let mut node = roots[i].node.clone();
                let access = roots[i].access;
                node.name = n;
                roots.set(i, PublishedSharedRoot { node, access });
            },
            None => {},
        }
        i = i + 1;
    }
}

/// Where the listing's rows disagree on the share, the root is read-only.
pub proof fn law_disagreement_is_read_only(nodes: Seq<Node>)
    ensures
        root_access(nodes, None) == Access::Viewer,
{
}

/// A single node that proves nothing in the expected share leaves the whole root
/// read-only.
pub proof fn law_every_row_must_prove_it(nodes: Seq<Node>, share: String, i: int)
    requires
        0 <= i < nodes.len(),
        membership_access(nodes[i], share@) is None,
    ensures
        root_access(nodes, Some(share)) == Access::Viewer,
{
}

/// Write access to a share root always rests on memberships of that very share.
pub proof fn law_write_access_is_proven(nodes: Seq<Node>, expected: Option<String>, i: int)
    requires
        root_access(nodes, expected).can_write(),
        0 <= i < nodes.len(),
    ensures
        expected is Some,
        membership_access(nodes[i], expected->0@) is Some,
        membership_access(nodes[i], expected->0@)->0.can_write(),
        nodes[i].membership is Some,
        nodes[i].membership->0.share_id@ == expected->0@,
{
}

/// The shares are named once each, and all of them.
pub proof fn law_shares_are_named_once(items: Seq<SharedWithMeItem>, uid: Uid)
    ensures
        first_named(items).contains(uid) <==> exists|i: int|
            0 <= i < items.len() && (#[trigger] items[i]).uid@ == uid,
        first_named(items).no_duplicates(),
    decreases items.len(),
{
    if items.len() > 0 {
        let rest = items.drop_last();
        law_shares_are_named_once(rest, uid);
        let had = first_named(rest);
        let now = first_named(items);
        let last = items.len() - 1;
        assert(items[last] == items.last());
        if had.contains(uid) {
            let i = choose|i: int| 0 <= i < rest.len() && (#[trigger] rest[i]).uid@ == uid;
            assert(items[i].uid@ == uid);
            let k = choose|k: int| 0 <= k < had.len() && had[k] == uid;
            assert(now[k] == uid);
        }
        if exists|i: int| 0 <= i < items.len() && (#[trigger] items[i]).uid@ == uid {
            let i = choose|i: int| 0 <= i < items.len() && (#[trigger] items[i]).uid@ == uid;
            if i < rest.len() {
                assert(rest[i].uid@ == uid);
            } else if !had.contains(uid) {
                assert(now[had.len() as int] == uid);
            }
        }
        if now.contains(uid) && !had.contains(uid) {
            let k = choose|k: int| 0 <= k < now.len() && now[k] == uid;
            if k < had.len() {
                assert(had[k] == uid);
            }
        }
    }
}

/// Access is proven only by a membership in the very share that was accepted, with a role;
/// and only an editor or an admin may write.
pub proof fn law_memberships_prove_access(node: Node, expected: Seq<char>)
    ensures
        membership_access(node, expected) is Some <==> node.membership is Some
            && node.membership->0.share_id@ == expected && node.membership->0.role is Some,
        membership_access(node, expected) is Some ==> (membership_access(node, expected)->0.can_write()
            <==> node.membership->0.role->0 is Editor || node.membership->0.role->0 is Admin),
{
}

/// Rows that all prove the same access give it.
pub proof fn law_agreeing_rows_give_their_access(nodes: Seq<Node>, share: String, access: Access)
    requires
        nodes.len() > 0,
        forall|i: int|
            0 <= i < nodes.len() ==> membership_access(#[trigger] nodes[i], share@) == Some(access),
    ensures
        root_access(nodes, Some(share)) == access,
{
    assert(membership_access(nodes[0], share@) == Some(access));
}

/// Of the nodes those are taken that were accepted, in order.
pub proof fn law_only_accepted_nodes_are_taken(nodes: Seq<Node>, accepted: Map<Uid, Option<String>>)
    ensures
        named_nodes(nodes, accepted) == nodes.filter(
            |n: Node| accepted.contains_key(n.uid@),
        ),
    decreases nodes.len(),
{
    reveal(Seq::filter);
    if nodes.len() > 0 {
        law_only_accepted_nodes_are_taken(nodes.drop_last(), accepted);
    }
}

proof fn lemma_row_order()
    ensures
        strict_weak(|a: Node, b: Node| row_before(a, b)),
{
    let lt = |a: Node, b: Node| row_before(a, b);
    assert forall|a: Node| !#[trigger] lt(a, a) by {
        law_text_order_is_irreflexive(a.uid@.text());
        law_text_order_is_irreflexive(a.name@);
    }
    assert forall|a: Node, b: Node, c: Node| #[trigger] lt(a, b) && #[trigger] lt(b, c) implies lt(
        a,
        c,
    ) by {
        lemma_text_chain(a.uid@.text(), b.uid@.text(), c.uid@.text());
        lemma_text_chain(a.name@, b.name@, c.name@);
    }
    assert forall|a: Node, b: Node, c: Node|
        #![trigger lt(a, b), lt(b, c)]
        !lt(a, b) && !lt(b, c) implies !lt(a, c) by {
        lemma_text_chain(a.uid@.text(), b.uid@.text(), c.uid@.text());
        lemma_text_chain(a.name@, b.name@, c.name@);
        lemma_text_chain(c.uid@.text(), b.uid@.text(), a.uid@.text());
        lemma_text_chain(c.name@, b.name@, a.name@);
    }
}

/// Where each run of rows ends: behind all rows of its node.
proof fn lemma_run_is_all(rows: Seq<Node>, start: int, at: int, i: int)
    requires
        0 <= start < at <= rows.len(),
        start <= i < rows.len(),
        forall|k: int| start <= k < at ==> (#[trigger] rows[k]).uid@ == rows[start].uid@,
        forall|a: int, b: int|
            start <= a < b < rows.len() ==> !text_lt(
                (#[trigger] rows[b]).uid@.text(),
                (#[trigger] rows[a]).uid@.text(),
            ),
        forall|a: int, b: int|
            start <= a < rows.len() && start <= b < rows.len() && (
            #[trigger] rows[a]).uid@.text() == (#[trigger] rows[b]).uid@.text() ==> rows[a].uid@
                == rows[b].uid@,
    ensures
        at <= run_end(rows, start, at) <= rows.len(),
        rows[i].uid@ == rows[start].uid@ <==> i < run_end(rows, start, at),
    decreases rows.len() - at,
{
    if at < rows.len() && rows[at].uid@ == rows[start].uid@ {
        lemma_run_is_all(rows, start, at + 1, i);
    } else if at < rows.len() && i >= at && rows[i].uid@ == rows[start].uid@ {
        let a = rows[start].uid@.text();
        let b = rows[at].uid@.text();
        law_text_order_is_total(a, b);
        assert(!text_lt(rows[at].uid@.text(), rows[start].uid@.text()));
        assert(text_lt(a, b));
        assert(i > at);
        assert(!text_lt(rows[i].uid@.text(), rows[at].uid@.text()));
    }
}

proof fn lemma_roots(
    rows: Seq<Node>,
    start: int,
    accepted: Map<Uid, Option<String>>,
    parent: NodeUid,
)
    requires
        0 <= start <= rows.len(),
        forall|a: int, b: int|
            start <= a < b < rows.len() ==> !text_lt(
                (#[trigger] rows[b]).uid@.text(),
                (#[trigger] rows[a]).uid@.text(),
            ),
        forall|a: int, b: int|
            start <= a < rows.len() && start <= b < rows.len() && (
            #[trigger] rows[a]).uid@.text() == (#[trigger] rows[b]).uid@.text() ==> rows[a].uid@
                == rows[b].uid@,
    ensures
        forall|k: int|
            0 <= k < roots_from(rows, start, accepted, parent).len() ==> is_root_of(
                #[trigger] roots_from(rows, start, accepted, parent)[k],
                rows,
                start,
                accepted,
                parent,
            ),
        forall|i: int|
            start <= i < rows.len() ==> has_root(
                roots_from(rows, start, accepted, parent),
                (#[trigger] rows[i]).uid@,
            ),
        forall|k: int, l: int|
            0 <= k < l < roots_from(rows, start, accepted, parent).len() ==> (
            #[trigger] roots_from(rows, start, accepted, parent)[k]).node.uid@ != (
            #[trigger] roots_from(rows, start, accepted, parent)[l]).node.uid@,
    decreases rows.len() - start,
{
    if start < rows.len() {
        let end = run_end(rows, start, start + 1);
        lemma_run_is_all(rows, start, start + 1, start);
        let r = roots_from(rows, start, accepted, parent);
        let rest = roots_from(rows, end, accepted, parent);
        lemma_roots(rows, end, accepted, parent);
        let first = r[0];
        assert(r =~= seq![first] + rest);
        assert forall|i: int| start <= i < rows.len() implies (rows[i].uid@ == rows[start].uid@
            <==> i < end) by {
            lemma_run_is_all(rows, start, start + 1, i);
        }
        assert(is_root_of(first, rows, start, accepted, parent)) by {
            let part = rows.subrange(start, end);
            assert(rows[start].uid@ == first.node.uid@);
            if first.access.can_write() {
                assert forall|i: int|
                    start <= i < rows.len() && (#[trigger] rows[i]).uid@
                        == first.node.uid@ implies accepted[first.node.uid@] is Some
                    && membership_access(rows[i], (accepted[first.node.uid@]->0)@) is Some
                    && membership_access(
                    rows[i],
                    (accepted[first.node.uid@]->0)@,
                )->0.can_write() by {
                    assert(part[i - start] == rows[i]);
                    law_write_access_is_proven(part, accepted[rows[start].uid@], i - start);
                }
            }
        }
        assert forall|k: int| 0 <= k < r.len() implies is_root_of(
            #[trigger] r[k],
            rows,
            start,
            accepted,
            parent,
        ) by {
            if k > 0 {
                assert(r[k] == rest[k - 1]);
                assert(is_root_of(rest[k - 1], rows, end, accepted, parent));
                let i = choose|i: int|
                    end <= i < rows.len() && (#[trigger] rows[i]).uid@ == rest[k - 1].node.uid@;
                assert(rows[i].uid@ != rows[start].uid@);
            }
        }
        assert forall|i: int| start <= i < rows.len() implies has_root(
            r,
            (#[trigger] rows[i]).uid@,
        ) by {
            if i < end {
                assert(r[0].node.uid@ == rows[i].uid@);
            } else {
                assert(has_root(rest, rows[i].uid@));
                let k = choose|k: int|
                    0 <= k < rest.len() && (#[trigger] rest[k]).node.uid@ == rows[i].uid@;
                assert(r[k + 1] == rest[k]);
            }
        }
        assert forall|k: int, l: int| 0 <= k < l < r.len() implies (#[trigger] r[k]).node.uid@ != (
        #[trigger] r[l]).node.uid@ by {
            assert(r[l] == rest[l - 1]);
            if k == 0 {
                assert(is_root_of(rest[l - 1], rows, end, accepted, parent));
                let i = choose|i: int|
                    end <= i < rows.len() && (#[trigger] rows[i]).uid@ == rest[l - 1].node.uid@;
                assert(rows[i].uid@ != rows[start].uid@);
            } else {
                assert(r[k] == rest[k - 1]);
            }
        }
    }
}

/// Whether a root is that of a node among the rows: put into the folder, out of the trash,
/// and writable only if each row of that node proves it.
pub open spec fn is_root_of(
    root: PublishedSharedRoot,
    rows: Seq<Node>,
    start: int,
    accepted: Map<Uid, Option<String>>,
    parent: NodeUid,
) -> bool {
    &&& exists|i: int| start <= i < rows.len() && (#[trigger] rows[i]).uid@ == root.node.uid@
    &&& root.node.parent_uid == Some(parent)
    &&& !root.node.trashed
    &&& root.access.can_write() ==> forall|i: int|
        start <= i < rows.len() && (#[trigger] rows[i]).uid@ == root.node.uid@ ==> accepted[root.node.uid@]
            is Some && membership_access(rows[i], (accepted[root.node.uid@]->0)@) is Some
            && membership_access(rows[i], (accepted[root.node.uid@]->0)@)->0.can_write()
}

/// Whether one of the roots is that of a node.
pub open spec fn has_root(roots: Seq<PublishedSharedRoot>, uid: Uid) -> bool {
    exists|k: int| 0 <= k < roots.len() && (#[trigger] roots[k]).node.uid@ == uid
}

/// Each node that was accepted and came is published once, in the folder of what is shared
/// and out of the trash; it may be written only if each of its rows proves that for the share
/// that was accepted. Nothing else is published.
pub proof fn law_shared_roots_are_published_once(
    nodes: Seq<Node>,
    accepted: Map<Uid, Option<String>>,
    parent: NodeUid,
    i: int,
    k: int,
    l: int,
)
    requires
        forall|a: int, b: int|
            0 <= a < nodes.len() && 0 <= b < nodes.len() && (#[trigger] nodes[a]).uid@.text() == (
            #[trigger] nodes[b]).uid@.text() ==> nodes[a].uid@ == nodes[b].uid@,
    ensures
        ({
            let roots = roots_of(nodes, accepted, parent);
            &&& 0 <= i < nodes.len() && accepted.contains_key(nodes[i].uid@) ==> exists|m: int|
                0 <= m < roots.len() && (#[trigger] roots[m]).node.uid@ == nodes[i].uid@
            &&& 0 <= k < l < roots.len() ==> roots[k].node.uid@ != roots[l].node.uid@
            &&& 0 <= k < roots.len() ==> {
                &&& accepted.contains_key(roots[k].node.uid@)
                &&& roots[k].node.parent_uid == Some(parent) && !roots[k].node.trashed
                &&& roots[k].access.can_write() && 0 <= i < nodes.len() && nodes[i].uid@
                    == roots[k].node.uid@ ==> accepted[nodes[i].uid@] is Some
                    && nodes[i].membership is Some && nodes[i].membership->0.share_id@ == (
                accepted[nodes[i].uid@]->0)@ && nodes[i].membership->0.role is Some && (
                nodes[i].membership->0.role->0 is Editor || nodes[i].membership->0.role->0 is Admin)
            }
        }),
{
    let lt = |a: Node, b: Node| row_before(a, b);
    let taken = named_nodes(nodes, accepted);
    let rows = stable_sort(taken, lt);
    let roots = roots_of(nodes, accepted, parent);
    assert(roots == roots_from(rows, 0, accepted, parent));
    lemma_row_order();
    law_stable_sort_sorts(taken, lt);
    lemma_sort_has(taken, lt);
    lemma_taken(nodes, accepted);
    assert forall|a: int, b: int| 0 <= a < b < rows.len() implies !text_lt(
        (#[trigger] rows[b]).uid@.text(),
        (#[trigger] rows[a]).uid@.text(),
    ) by {
        assert(!lt(rows[b], rows[a]));
    }
    assert forall|a: int| 0 <= a < rows.len() implies nodes.contains(#[trigger] rows[a])
        && accepted.contains_key(rows[a].uid@) by {
        assert(taken.contains(rows[a]));
        let m = choose|m: int| 0 <= m < taken.len() && taken[m] == rows[a];
        assert(nodes.contains(taken[m]));
    }
    assert forall|a: int, b: int|
        0 <= a < rows.len() && 0 <= b < rows.len() && (#[trigger] rows[a]).uid@.text() == (
        #[trigger] rows[b]).uid@.text() implies rows[a].uid@ == rows[b].uid@ by {
        let x = choose|x: int| 0 <= x < nodes.len() && nodes[x] == rows[a];
        let y = choose|y: int| 0 <= y < nodes.len() && nodes[y] == rows[b];
        assert(nodes[x].uid@.text() == nodes[y].uid@.text());
    }
    lemma_roots(rows, 0, accepted, parent);
    if 0 <= i < nodes.len() && accepted.contains_key(nodes[i].uid@) {
        assert(taken.contains(nodes[i]));
        let m = choose|m: int| 0 <= m < taken.len() && taken[m] == nodes[i];
        assert(rows.contains(taken[m]));
        let n = choose|n: int| 0 <= n < rows.len() && rows[n] == nodes[i];
        assert(has_root(roots, rows[n].uid@));
        if 0 <= k < roots.len() && roots[k].access.can_write() && nodes[i].uid@
            == roots[k].node.uid@ {
            assert(is_root_of(roots[k], rows, 0, accepted, parent));
            assert(rows[n].uid@ == roots[k].node.uid@);
            law_memberships_prove_access(nodes[i], (accepted[nodes[i].uid@]->0)@);
        }
    }
    if 0 <= k < roots.len() {
        assert(is_root_of(roots[k], rows, 0, accepted, parent));
        let n = choose|n: int| 0 <= n < rows.len() && (#[trigger] rows[n]).uid@ == roots[k].node.uid@;
        assert(accepted.contains_key(rows[n].uid@));
    }
}

proof fn lemma_taken(nodes: Seq<Node>, accepted: Map<Uid, Option<String>>)
    ensures
        forall|i: int|
            0 <= i < nodes.len() && accepted.contains_key((#[trigger] nodes[i]).uid@)
                ==> named_nodes(nodes, accepted).contains(nodes[i]),
        forall|m: int|
            0 <= m < named_nodes(nodes, accepted).len() ==> nodes.contains(
                #[trigger] named_nodes(nodes, accepted)[m],
            ) && accepted.contains_key(named_nodes(nodes, accepted)[m].uid@),
    decreases nodes.len(),
{
    if nodes.len() > 0 {
        let rest = nodes.drop_last();
        lemma_taken(rest, accepted);
        let had = named_nodes(rest, accepted);
        let now = named_nodes(nodes, accepted);
        assert forall|i: int|
            0 <= i < nodes.len() && accepted.contains_key(
                (#[trigger] nodes[i]).uid@,
            ) implies now.contains(nodes[i]) by {
            if i < rest.len() {
                assert(rest[i] == nodes[i]);
                assert(had.contains(rest[i]));
                let m = choose|m: int| 0 <= m < had.len() && had[m] == rest[i];
                assert(now[m] == nodes[i]);
            } else {
                assert(now[now.len() - 1] == nodes[i]);
            }
        }
        assert forall|m: int| 0 <= m < now.len() implies nodes.contains(#[trigger] now[m])
            && accepted.contains_key(now[m].uid@) by {
            if m < had.len() {
                assert(now[m] == had[m]);
                assert(rest.contains(had[m]));
                let i = choose|i: int| 0 <= i < rest.len() && rest[i] == had[m];
                assert(nodes[i] == had[m]);
            } else {
                assert(nodes[nodes.len() - 1] == now[m]);
            }
        }
    }
}

/// A share is known for a node just where all rows of that node name the same one.
pub proof fn law_shares_are_known_where_rows_agree(
    items: Seq<SharedWithMeItem>,
    uid: Uid,
    known: Option<String>,
    i: int,
    j: int,
)
    requires
        provenance_is(items, uid, known),
        0 <= i < items.len(),
        0 <= j < items.len(),
        items[i].uid@ == uid,
        items[j].uid@ == uid,
    ensures
        known is Some ==> items[i].share_id@ == (known->0)@,
        items[i].share_id@ != items[j].share_id@ ==> known is None,
        known is None ==> exists|k: int|
            0 <= k < items.len() && (#[trigger] items[k]).uid@ == uid && items[k].share_id@
                != items[i].share_id@,
{
    if known is None {
        assert(!rows_agree(items, uid, items[i].share_id@));
    }
}

} // verus!

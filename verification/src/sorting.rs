//! Ordering: texts by code point, and stable sorting by any strict order.

use crate::text::chars_of;
use vstd::prelude::*;

verus! {

/// Whether `a` comes before `b`, code point by code point.
pub open spec fn text_lt(a: Seq<char>, b: Seq<char>) -> bool
    decreases a.len(),
{
    if b.len() == 0 {
        false
    } else if a.len() == 0 {
        true
    } else if a[0] != b[0] {
        a[0] < b[0]
    } else {
        text_lt(a.skip(1), b.skip(1))
    }
}

/// Whether `a` comes before `b`.
pub fn text_less(a: &str, b: &str) -> (r: bool)
    ensures
        r == text_lt(a@, b@),
{
    let x = chars_of(a);
    let y = chars_of(b);
    let mut i: usize = 0;
    assert(x@.skip(0) =~= x@);
    assert(y@.skip(0) =~= y@);
    while i < x.len() && i < y.len()
        invariant
            i <= x@.len(),
            i <= y@.len(),
            x@ == a@,
            y@ == b@,
            text_lt(a@, b@) == text_lt(x@.skip(i as int), y@.skip(i as int)),
        decreases x@.len() - i,
    {
        if x[i] != y[i] {
            return x[i] < y[i];
        }
        assert(x@.skip(i as int).skip(1) =~= x@.skip(i + 1));
        assert(y@.skip(i as int).skip(1) =~= y@.skip(i + 1));
        i = i + 1;
    }
    i < y.len()
}

/// No text comes before itself.
pub proof fn law_text_order_is_irreflexive(a: Seq<char>)
    ensures
        !text_lt(a, a),
    decreases a.len(),
{
    if a.len() > 0 {
        law_text_order_is_irreflexive(a.skip(1));
    }
}

/// The order of texts is transitive.
pub proof fn law_text_order_is_transitive(a: Seq<char>, b: Seq<char>, c: Seq<char>)
    requires
        text_lt(a, b),
        text_lt(b, c),
    ensures
        text_lt(a, c),
    decreases a.len(),
{
    if a.len() > 0 && a[0] == b[0] && b[0] == c[0] {
        law_text_order_is_transitive(a.skip(1), b.skip(1), c.skip(1));
    }
}

/// Any two different texts are ordered one way or the other.
pub proof fn law_text_order_is_total(a: Seq<char>, b: Seq<char>)
    ensures
        a == b || text_lt(a, b) || text_lt(b, a),
    decreases a.len(),
{
    if a.len() > 0 && b.len() > 0 && a[0] == b[0] {
        law_text_order_is_total(a.skip(1), b.skip(1));
        if a.skip(1) == b.skip(1) {
            assert(a =~= seq![a[0]] + a.skip(1));
            assert(b =~= seq![b[0]] + b.skip(1));
        }
    } else if a.len() == 0 && b.len() == 0 {
        assert(a =~= b);
    }
}

/// Texts are ordered by the first place where they differ, and one that ends there comes
/// first.
pub proof fn law_text_order_is_by_the_first_difference(a: Seq<char>, b: Seq<char>, n: int)
    requires
        0 <= n <= a.len(),
        n < b.len(),
        forall|i: int| 0 <= i < n ==> a[i] == b[i],
    ensures
        n == a.len() ==> text_lt(a, b) && !text_lt(b, a),
        n < a.len() && a[n] < b[n] ==> text_lt(a, b) && !text_lt(b, a),
        n < a.len() && a[n] > b[n] ==> text_lt(b, a) && !text_lt(a, b),
    decreases n,
{
    if n > 0 {
        let x = a.skip(1);
        let y = b.skip(1);
        assert forall|i: int| 0 <= i < n - 1 implies x[i] == y[i] by {
            assert(a[i + 1] == b[i + 1]);
        }
        assert(a[0] == b[0]);
        law_text_order_is_by_the_first_difference(x, y, n - 1);
        if n < a.len() {
            assert(x[n - 1] == a[n]);
        }
        assert(y[n - 1] == b[n]);
    }
}

pub proof fn lemma_text_chain(a: Seq<char>, b: Seq<char>, c: Seq<char>)
    ensures
        text_lt(a, b) && text_lt(b, c) ==> text_lt(a, c),
        !text_lt(a, b) && !text_lt(b, c) ==> !text_lt(a, c),
        text_lt(a, b) ==> !text_lt(b, a) && a != b,
        !text_lt(a, b) && !text_lt(b, a) ==> a == b,
        !text_lt(b, c) && !text_lt(c, b) ==> b == c,
        text_lt(b, c) ==> b != c && !text_lt(c, b),
        text_lt(a, c) ==> a != c && !text_lt(c, a),
        !text_lt(a, c) && !text_lt(c, a) ==> a == c,
{
    law_text_order_is_irreflexive(a);
    law_text_order_is_irreflexive(b);
    law_text_order_is_irreflexive(c);
    law_text_order_is_total(a, b);
    law_text_order_is_total(b, c);
    law_text_order_is_total(a, c);
    if text_lt(a, b) && text_lt(b, c) {
        law_text_order_is_transitive(a, b, c);
    }
    if text_lt(a, b) && text_lt(b, a) {
        law_text_order_is_transitive(a, b, a);
    }
    if text_lt(b, c) && text_lt(c, b) {
        law_text_order_is_transitive(b, c, b);
    }
    if text_lt(a, c) && text_lt(c, a) {
        law_text_order_is_transitive(a, c, a);
    }
    if !text_lt(a, b) && !text_lt(b, c) && text_lt(a, c) {
        if text_lt(c, b) {
            law_text_order_is_transitive(a, c, b);
        }
    }
}

/// Where `x` goes in a sorted sequence: behind everything that it does not come
/// before.
pub open spec fn insert_pos<T>(s: Seq<T>, x: T, lt: spec_fn(T, T) -> bool) -> int
    decreases s.len(),
{
    if s.len() == 0 {
        0
    } else if lt(x, s.last()) {
        insert_pos(s.drop_last(), x, lt)
    } else {
        s.len() as int
    }
}

/// `s` sorted by `lt`; what is not ordered either way stays in the order it had.
pub open spec fn stable_sort<T>(s: Seq<T>, lt: spec_fn(T, T) -> bool) -> Seq<T>
    decreases s.len(),
{
    if s.len() == 0 {
        seq![]
    } else {
        let r = stable_sort(s.drop_last(), lt);
        r.insert(insert_pos(r, s.last(), lt), s.last())
    }
}

pub proof fn lemma_insert_pos<T>(s: Seq<T>, x: T, lt: spec_fn(T, T) -> bool)
    ensures
        0 <= insert_pos(s, x, lt) <= s.len(),
        forall|i: int| insert_pos(s, x, lt) <= i < s.len() ==> lt(x, #[trigger] s[i]),
        insert_pos(s, x, lt) > 0 ==> !lt(x, s[insert_pos(s, x, lt) - 1]),
    decreases s.len(),
{
    if s.len() > 0 && lt(x, s.last()) {
        let t = s.drop_last();
        lemma_insert_pos(t, x, lt);
        assert forall|i: int| insert_pos(s, x, lt) <= i < s.len() implies lt(
            x,
            #[trigger] s[i],
        ) by {
            if i < t.len() {
                assert(s[i] == t[i]);
            }
        }
    }
}

/// A strict order in which being unordered is transitive too.
pub open spec fn strict_weak<T>(lt: spec_fn(T, T) -> bool) -> bool {
    &&& forall|a: T| !#[trigger] lt(a, a)
    &&& forall|a: T, b: T, c: T| #[trigger] lt(a, b) && #[trigger] lt(b, c) ==> lt(a, c)
    &&& forall|a: T, b: T, c: T|
        #![trigger lt(a, b), lt(b, c)]
        !lt(a, b) && !lt(b, c) ==> !lt(a, c)
}

/// Sorting orders the sequence and keeps exactly its elements.
pub proof fn law_stable_sort_sorts<T>(s: Seq<T>, lt: spec_fn(T, T) -> bool)
    requires
        strict_weak(lt),
    ensures
        stable_sort(s, lt).to_multiset() =~= s.to_multiset(),
        stable_sort(s, lt).len() == s.len(),
        forall|i: int, j: int|
            0 <= i < j < s.len() ==> !lt(
                #[trigger] stable_sort(s, lt)[j],
                #[trigger] stable_sort(s, lt)[i],
            ),
    decreases s.len(),
{
    broadcast use vstd::seq_lib::group_to_multiset_ensures;

    if s.len() > 0 {
        let rest = s.drop_last();
        law_stable_sort_sorts(rest, lt);
        let r = stable_sort(rest, lt);
        let x = s.last();
        let p = insert_pos(r, x, lt);
        lemma_insert_pos(r, x, lt);
        let out = r.insert(p, x);
        assert(s =~= rest.push(x));
        assert(out =~= r.take(p).push(x) + r.skip(p));
        assert(r =~= r.take(p) + r.skip(p));
        vstd::seq_lib::lemma_multiset_commutative(r.take(p), r.skip(p));
        vstd::seq_lib::lemma_multiset_commutative(r.take(p).push(x), r.skip(p));
        assert(out.to_multiset() =~= s.to_multiset());
        assert forall|i: int, j: int| 0 <= i < j < out.len() implies !lt(
            #[trigger] out[j],
            #[trigger] out[i],
        ) by {
            if i < p && j < p {
                assert(out[i] == r[i] && out[j] == r[j]);
            } else if i < p && j == p {
                assert(out[i] == r[i]);
                assert(!lt(x, r[p - 1]));
                if i < p - 1 {
                    assert(!lt(r[p - 1], r[i]));
                }
            } else if i < p && j > p {
                assert(out[i] == r[i] && out[j] == r[j - 1]);
            } else if i == p {
                assert(out[j] == r[j - 1]);
                assert(lt(x, r[j - 1]));
                if lt(r[j - 1], x) {
                    assert(lt(x, x));
                }
            } else {
                assert(out[i] == r[i - 1] && out[j] == r[j - 1]);
            }
        }
    }
}

/// Sorting keeps each element, and brings none in.
pub proof fn lemma_sort_has<T>(s: Seq<T>, lt: spec_fn(T, T) -> bool)
    ensures
        stable_sort(s, lt).len() == s.len(),
        forall|i: int| 0 <= i < s.len() ==> stable_sort(s, lt).contains(#[trigger] s[i]),
        forall|i: int| 0 <= i < s.len() ==> s.contains(#[trigger] stable_sort(s, lt)[i]),
    decreases s.len(),
{
    if s.len() > 0 {
        let rest = s.drop_last();
        lemma_sort_has(rest, lt);
        let r = stable_sort(rest, lt);
        let x = s.last();
        let p = insert_pos(r, x, lt);
        lemma_insert_pos(r, x, lt);
        let out = r.insert(p, x);
        assert(out[p] == x);
        assert forall|i: int| 0 <= i < s.len() implies out.contains(#[trigger] s[i]) by {
            if i < rest.len() {
                assert(s[i] == rest[i]);
                let k = choose|k: int| 0 <= k < r.len() && r[k] == rest[i];
                if k < p {
                    assert(out[k] == r[k]);
                } else {
                    assert(out[k + 1] == r[k]);
                }
            }
        }
        assert forall|i: int| 0 <= i < s.len() implies s.contains(#[trigger] out[i]) by {
            if i == p {
                assert(s[s.len() - 1] == x);
            } else {
                let k = if i < p {
                    i
                } else {
                    i - 1
                };
                assert(out[i] == r[k]);
                assert(rest.contains(r[k]));
                let j = choose|j: int| 0 <= j < rest.len() && rest[j] == r[k];
                assert(s[j] == r[k]);
            }
        }
    }
}

/// What sorting does not order, it leaves in the order it had: of each class of elements
/// that are ordered neither way against one of them, the sorted sequence holds the same
/// ones in the same order.
pub proof fn law_stable_sort_keeps_the_order_of_ties<T>(
    s: Seq<T>,
    lt: spec_fn(T, T) -> bool,
    x: T,
)
    requires
        strict_weak(lt),
    ensures
        stable_sort(s, lt).filter(|y: T| !lt(x, y) && !lt(y, x)) == s.filter(
            |y: T| !lt(x, y) && !lt(y, x),
        ),
    decreases s.len(),
{
    reveal(Seq::filter);
    let same = |y: T| !lt(x, y) && !lt(y, x);
    if s.len() > 0 {
        let rest = s.drop_last();
        law_stable_sort_keeps_the_order_of_ties(rest, lt, x);
        let r = stable_sort(rest, lt);
        let z = s.last();
        let p = insert_pos(r, z, lt);
        lemma_insert_pos(r, z, lt);
        let head = r.take(p);
        let tail = r.skip(p);
        assert(r =~= head + tail);
        assert(r.insert(p, z) =~= head.push(z) + tail);
        lemma_filter_join(head, tail, same);
        lemma_filter_join(head.push(z), tail, same);
        assert(head.push(z).drop_last() =~= head);
        if same(z) {
            assert forall|i: int| 0 <= i < tail.len() implies !same(#[trigger] tail[i]) by {
                assert(tail[i] == r[p + i]);
                assert(lt(z, tail[i]));
                if same(tail[i]) {
                    assert(!lt(z, x) && !lt(x, tail[i]));
                    assert(!lt(z, tail[i]));
                }
            }
            lemma_filter_none(tail, same);
        }
    }
}

proof fn lemma_filter_join<T>(a: Seq<T>, b: Seq<T>, p: spec_fn(T) -> bool)
    ensures
        (a + b).filter(p) == a.filter(p) + b.filter(p),
    decreases b.len(),
{
    reveal(Seq::filter);
    if b.len() == 0 {
        assert(a + b =~= a);
        assert(a.filter(p) + b.filter(p) =~= a.filter(p));
    } else {
        lemma_filter_join(a, b.drop_last(), p);
        assert((a + b).drop_last() =~= a + b.drop_last());
        assert((a + b).filter(p) =~= a.filter(p) + b.filter(p));
    }
}

proof fn lemma_filter_none<T>(a: Seq<T>, p: spec_fn(T) -> bool)
    requires
        forall|i: int| 0 <= i < a.len() ==> !p(#[trigger] a[i]),
    ensures
        a.filter(p).len() == 0,
    decreases a.len(),
{
    reveal(Seq::filter);
    if a.len() > 0 {
        lemma_filter_none(a.drop_last(), p);
    }
}

/// Sort by a strict order, keeping the order of what is not ordered.
pub(crate) fn sort_stable<T, F: Fn(&T, &T) -> bool>(
    v: Vec<T>,
    less: F,
    Ghost(lt): Ghost<spec_fn(T, T) -> bool>,
) -> (r: Vec<T>)
    requires
        forall|a: &T, b: &T| #[trigger] call_requires(less, (a, b)),
        forall|a: &T, b: &T, x: bool| #[trigger] call_ensures(less, (a, b), x) ==> x == lt(*a, *b),
    ensures
        r@ == stable_sort(v@, lt),
        r@.len() == v@.len(),
{
    let ghost all = v@;
    let mut v = v;
    let mut r: Vec<T> = Vec::new();
    let ghost mut n: int = 0;
    assert(all.take(0) =~= Seq::<T>::empty());
    assert(all.skip(0) =~= all);
    while v.len() > 0
        invariant
            forall|a: &T, b: &T| #[trigger] call_requires(less, (a, b)),
            forall|a: &T, b: &T, x: bool| #[trigger]
                call_ensures(less, (a, b), x) ==> x == lt(*a, *b),
            0 <= n <= all.len(),
            v@ == all.skip(n),
            r@ == stable_sort(all.take(n), lt),
            r@.len() == n,
        decreases v@.len(),
    {
        let x = v.remove(0);
        assert(x == all[n]);
        let mut p: usize = r.len();
        assert(r@.take(p as int) =~= r@);
        while p > 0 && less(&x, &r[p - 1])
            invariant
                forall|a: &T, b: &T| #[trigger] call_requires(less, (a, b)),
                forall|a: &T, b: &T, y: bool| #[trigger]
                    call_ensures(less, (a, b), y) ==> y == lt(*a, *b),
                p <= r@.len(),
                insert_pos(r@, x, lt) == insert_pos(r@.take(p as int), x, lt),
            ensures
                p == insert_pos(r@, x, lt),
            decreases p,
        {
            assert(r@.take(p as int).drop_last() =~= r@.take(p - 1));
            p = p - 1;
        }
        proof {
            assert(all.take(n + 1).drop_last() =~= all.take(n));
            assert(all.take(n + 1).last() == x);
            assert(all.skip(n).remove(0) =~= all.skip(n + 1));
        }
        r.insert(p, x);
        proof {
            n = n + 1;
        }
    }
    assert(all.take(n) =~= all);
    r
}

} // verus!

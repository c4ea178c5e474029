//! Searching a list from its front.

use vstd::prelude::*;

verus! {

/// The first of `s` that `p` holds of.
pub open spec fn first_where<T>(s: Seq<T>, p: spec_fn(T) -> bool) -> Option<T>
    decreases s.len(),
{
    if s.len() == 0 {
        None
    } else if p(s[0]) {
        Some(s[0])
    } else {
        first_where(s.skip(1), p)
    }
}

/// One step of a search: what is first from `i` on.
pub proof fn lemma_first_where<T>(s: Seq<T>, p: spec_fn(T) -> bool, i: int)
    requires
        0 <= i < s.len(),
    ensures
        first_where(s.skip(i), p) == (if p(s[i]) {
            Some(s[i])
        } else {
            first_where(s.skip(i + 1), p)
        }),
{
    assert(s.skip(i)[0] == s[i]);
    assert(s.skip(i).skip(1) =~= s.skip(i + 1));
}

/// What is found is in the list, is what was looked for, and is the first such.
pub proof fn law_first_where<T>(s: Seq<T>, p: spec_fn(T) -> bool)
    ensures
        match first_where(s, p) {
            Some(x) => exists|i: int|
                0 <= i < s.len() && #[trigger] s[i] == x && p(x) && forall|j: int|
                    0 <= j < i ==> !p(#[trigger] s[j]),
            None => forall|i: int| 0 <= i < s.len() ==> !p(#[trigger] s[i]),
        },
    decreases s.len(),
{
    if s.len() > 0 {
        if p(s[0]) {
            assert(s[0] == s[0]);
        } else {
            let t = s.skip(1);
            law_first_where(t, p);
            match first_where(t, p) {
                Some(x) => {
                    let i = choose|i: int|
                        0 <= i < t.len() && #[trigger] t[i] == x && p(x) && forall|j: int|
                            0 <= j < i ==> !p(#[trigger] t[j]);
                    assert(s[i + 1] == x);
                    assert forall|j: int| 0 <= j < i + 1 implies !p(#[trigger] s[j]) by {
                        if j > 0 {
                            assert(t[j - 1] == s[j]);
                        }
                    }
                },
                None => {
                    assert forall|i: int| 0 <= i < s.len() implies !p(#[trigger] s[i]) by {
                        if i > 0 {
                            assert(t[i - 1] == s[i]);
                        }
                    }
                },
            }
        }
    }
}

/// The last of `s` that `p` holds of.
pub open spec fn last_where<T>(s: Seq<T>, p: spec_fn(T) -> bool) -> Option<T>
    decreases s.len(),
{
    if s.len() == 0 {
        None
    } else if p(s.last()) {
        Some(s.last())
    } else {
        last_where(s.drop_last(), p)
    }
}

/// What is found from the back is in the list, is what was looked for, and is the last such.
pub proof fn law_last_where<T>(s: Seq<T>, p: spec_fn(T) -> bool)
    ensures
        match last_where(s, p) {
            Some(x) => exists|i: int|
                0 <= i < s.len() && #[trigger] s[i] == x && p(x) && forall|j: int|
                    i < j < s.len() ==> !p(#[trigger] s[j]),
            None => forall|i: int| 0 <= i < s.len() ==> !p(#[trigger] s[i]),
        },
    decreases s.len(),
{
    if s.len() > 0 {
        if p(s.last()) {
            assert(s[s.len() - 1] == s.last());
        } else {
            let t = s.drop_last();
            law_last_where(t, p);
            match last_where(t, p) {
                Some(x) => {
                    let i = choose|i: int|
                        0 <= i < t.len() && #[trigger] t[i] == x && p(x) && forall|j: int|
                            i < j < t.len() ==> !p(#[trigger] t[j]);
                    assert(s[i] == x);
                    assert forall|j: int| i < j < s.len() implies !p(#[trigger] s[j]) by {
                        if j < t.len() {
                            assert(t[j] == s[j]);
                        }
                    }
                },
                None => {
                    assert forall|j: int| 0 <= j < s.len() implies !p(#[trigger] s[j]) by {
                        if j < t.len() {
                            assert(t[j] == s[j]);
                        }
                    }
                },
            }
        }
    }
}

} // verus!

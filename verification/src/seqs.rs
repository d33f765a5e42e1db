//! Facts about sequences that the queues of the state machines use.
use vstd::prelude::*;

verus! {

/// `i` is the first index of `s` whose element satisfies `f`.
pub open spec fn is_first<A>(s: Seq<A>, f: spec_fn(A) -> bool, i: int) -> bool {
    &&& 0 <= i < s.len()
    &&& f(s[i])
    &&& forall|j: int| 0 <= j < i ==> !f(#[trigger] s[j])
}

/// The first index of `s` whose element satisfies `f`; -1 where none does.
pub open spec fn first_index<A>(s: Seq<A>, f: spec_fn(A) -> bool) -> int {
    if exists|i: int| is_first(s, f, i) {
        choose|i: int| is_first(s, f, i)
    } else {
        -1
    }
}

pub proof fn lemma_first_index<A>(s: Seq<A>, f: spec_fn(A) -> bool, i: int)
    requires
        is_first(s, f, i),
    ensures
        first_index(s, f) == i,
{
    let k = choose|k: int| is_first(s, f, k);
    assert(is_first(s, f, k));
    if k < i {
        assert(!f(s[k]));
    } else if i < k {
        assert(!f(s[i]));
    }
}

pub proof fn lemma_no_index<A>(s: Seq<A>, f: spec_fn(A) -> bool)
    requires
        forall|j: int| 0 <= j < s.len() ==> !f(#[trigger] s[j]),
    ensures
        first_index(s, f) == -1,
{
    if exists|i: int| is_first(s, f, i) {
        let k = choose|i: int| is_first(s, f, i);
        assert(f(s[k]));
    }
}

/// Where some element satisfies `f`, the first such one is at or before it.
pub proof fn lemma_first_exists<A>(s: Seq<A>, f: spec_fn(A) -> bool, k: int)
    requires
        0 <= k < s.len(),
        f(s[k]),
    ensures
        0 <= first_index(s, f) <= k,
        is_first(s, f, first_index(s, f)),
    decreases k,
{
    if forall|j: int| 0 <= j < k ==> !f(#[trigger] s[j]) {
        assert(is_first(s, f, k));
        lemma_first_index(s, f, k);
    } else {
        let j = choose|j: int| 0 <= j < k && f(#[trigger] s[j]);
        lemma_first_exists(s, f, j);
    }
}

/// `first_index` is the first index whose element satisfies `f` where some
/// element does, and -1 where none does.
pub proof fn lemma_first_index_cases<A>(s: Seq<A>, f: spec_fn(A) -> bool)
    ensures
        (exists|k: int| 0 <= k < s.len() && #[trigger] f(s[k])) ==> is_first(s, f, first_index(s, f)),
        !(exists|k: int| 0 <= k < s.len() && #[trigger] f(s[k])) ==> first_index(s, f) == -1,
{
    if exists|k: int| 0 <= k < s.len() && #[trigger] f(s[k]) {
        let k = choose|k: int| 0 <= k < s.len() && #[trigger] f(s[k]);
        lemma_first_exists(s, f, k);
    } else {
        lemma_no_index(s, f);
    }
}

/// Where at most one element satisfies `f`, none does once the first is
/// removed.
pub proof fn lemma_remove_only<A>(s: Seq<A>, f: spec_fn(A) -> bool)
    requires
        first_index(s, f) >= 0,
        forall|i: int, j: int| 0 <= i < s.len() && 0 <= j < s.len() && f(#[trigger] s[i]) && f(#[trigger] s[j]) ==> i == j,
    ensures
        first_index(s.remove(first_index(s, f)), f) == -1,
{
    let k = first_index(s, f);
    let t = s.remove(k);
    assert(is_first(s, f, k)) by {
        let c = choose|c: int| is_first(s, f, c);
    }
    assert forall|j: int| 0 <= j < t.len() implies !f(#[trigger] t[j]) by {
        if j < k {
            assert(t[j] == s[j]);
        } else {
            assert(t[j] == s[j + 1]);
            if f(s[j + 1]) {
                assert(f(s[k]));
            }
        }
    }
    lemma_no_index(t, f);
}

} // verus!

//! First matches among numbered candidates.

use vstd::prelude::*;

verus! {

/// The first number from `i` up to but not including `n` that satisfies `p`; `n` where none does.
pub open spec fn first_from(i: int, n: int, p: spec_fn(int) -> bool) -> int
    decreases n - i,
{
    if i >= n {
        n
    } else if p(i) {
        i
    } else {
        first_from(i + 1, n, p)
    }
}

/// The first number below `n` that satisfies `p`; `n` where none does.
pub open spec fn first_where(n: int, p: spec_fn(int) -> bool) -> int {
    first_from(0, n, p)
}

/// `first_from` is where the first match stands.
pub proof fn lemma_first_from(i: int, n: int, p: spec_fn(int) -> bool)
    requires
        i <= n,
    ensures
        i <= first_from(i, n, p) <= n,
        first_from(i, n, p) < n ==> p(first_from(i, n, p)),
        forall|j: int| i <= j < first_from(i, n, p) ==> !(#[trigger] p(j)),
    decreases n - i,
{
    if i < n && !p(i) {
        lemma_first_from(i + 1, n, p);
    }
}

/// The first match is the only position with no match before it.
pub proof fn lemma_first_from_is(i: int, n: int, p: spec_fn(int) -> bool, k: int)
    requires
        i <= k <= n,
        forall|j: int| i <= j < k ==> !(#[trigger] p(j)),
        k < n ==> p(k),
    ensures
        first_from(i, n, p) == k,
{
    lemma_first_from(i, n, p);
    let f = first_from(i, n, p);
    if f < k {
        assert(!p(f));
    }
    if k < f {
        assert(!p(k));
    }
}

} // verus!

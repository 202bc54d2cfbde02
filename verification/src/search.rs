//! Searching and counting over ranges of indices.

use vstd::prelude::*;

verus! {

/// The least index below `n` for which `p` holds.
pub open spec fn first_where(n: nat, p: spec_fn(int) -> bool) -> Option<int>
    decreases n,
{
    if n == 0 {
        None
    } else {
        match first_where((n - 1) as nat, p) {
            Some(i) => Some(i),
            None => if p(n - 1) {
                Some(n - 1)
            } else {
                None
            },
        }
    }
}

/// The number of indices below `n` for which `p` holds.
pub open spec fn count_where(n: nat, p: spec_fn(int) -> bool) -> nat
    decreases n,
{
    if n == 0 {
        0
    } else if p(n - 1) {
        count_where((n - 1) as nat, p) + 1
    } else {
        count_where((n - 1) as nat, p)
    }
}

/// An index found below `m` is also the one found below any larger bound.
pub proof fn lemma_first_where_stable(m: nat, n: nat, p: spec_fn(int) -> bool)
    requires
        m <= n,
        first_where(m, p) is Some,
    ensures
        first_where(n, p) == first_where(m, p),
    decreases n,
{
    if m < n {
        lemma_first_where_stable(m, (n - 1) as nat, p);
    }
}

/// The search finds the least index, and fails only where there is none.
pub proof fn lemma_first_where(n: nat, p: spec_fn(int) -> bool)
    ensures
        match first_where(n, p) {
            Some(i) => 0 <= i < n && p(i) && forall|j: int| 0 <= j < i ==> !#[trigger] p(j),
            None => forall|j: int| 0 <= j < n ==> !#[trigger] p(j),
        },
    decreases n,
{
    if n > 0 {
        lemma_first_where((n - 1) as nat, p);
    }
}

pub proof fn lemma_count_where_bound(n: nat, p: spec_fn(int) -> bool)
    ensures
        count_where(n, p) <= n,
    decreases n,
{
    if n > 0 {
        lemma_count_where_bound((n - 1) as nat, p);
    }
}

/// Where one predicate implies another one below `n`, it is counted no more often, and less
/// often if `k` tells them apart.
pub proof fn lemma_count_where_less(
    n: nat,
    p: spec_fn(int) -> bool,
    q: spec_fn(int) -> bool,
    k: int,
)
    requires
        forall|i: int| 0 <= i < n && #[trigger] q(i) ==> p(i),
    ensures
        count_where(n, q) <= count_where(n, p),
        0 <= k < n && p(k) && !q(k) ==> count_where(n, q) < count_where(n, p),
    decreases n,
{
    if n > 0 {
        lemma_count_where_less((n - 1) as nat, p, q, k);
    }
}

/// Predicates that agree below `n` are counted alike.
pub proof fn lemma_count_where_same(n: nat, p: spec_fn(int) -> bool, q: spec_fn(int) -> bool)
    requires
        forall|i: int| 0 <= i < n ==> #[trigger] p(i) == q(i),
    ensures
        count_where(n, p) == count_where(n, q),
    decreases n,
{
    if n > 0 {
        lemma_count_where_same((n - 1) as nat, p, q);
        assert(p(n - 1) == q(n - 1));
    }
}

} // verus!

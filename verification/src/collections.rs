//! Sets and disjoint sets over machine words.

use pliron::utils::union_find::UnionFind;
use rustc_hash::{FxBuildHasher, FxHashSet};
use vstd::prelude::*;

verus! {

/// `pliron::utils::union_find::UnionFind`, a partition of the values that it has seen.
#[verifier::external_type_specification]
#[verifier::external_body]
#[verifier::reject_recursive_types(T)]
pub struct ExUnionFind<T: Eq + core::hash::Hash + Clone>(UnionFind<T>);

/// `rustc_hash::FxBuildHasher`, which builds the hashers of an `FxHashSet`.
#[verifier::external_type_specification]
#[verifier::external_body]
pub struct ExFxBuildHasher(FxBuildHasher);

/// What a union-find structure holds: each value that it has seen, with the representative
/// of the value's set.
pub uninterp spec fn roots(uf: UnionFind<usize>) -> Map<usize, usize>;

/// `roots` with `v` as a set of its own, unless it is there already.
pub open spec fn with_value(roots: Map<usize, usize>, v: usize) -> Map<usize, usize> {
    if roots.dom().contains(v) {
        roots
    } else {
        roots.insert(v, v)
    }
}

/// `roots` with the sets of the representatives `a` and `b` made one, represented by `root`.
pub open spec fn merged(roots: Map<usize, usize>, a: usize, b: usize, root: usize) -> Map<
    usize,
    usize,
> {
    Map::new(
        |k: usize| roots.dom().contains(k),
        |k: usize|
            if roots[k] == a || roots[k] == b {
                root
            } else {
                roots[k]
            },
    )
}

/// `UnionFind::default`: has seen no value.
#[verifier::external_body]
pub(crate) fn new_union_find() -> (uf: UnionFind<usize>)
    ensures
        roots(uf).is_empty(),
{
    UnionFind::default()
}

/// `UnionFind::find`: the representative of the set of `v`, which is a set of its own if it
/// was not there before. A representative represents itself.
#[verifier::external_body]
pub(crate) fn find(uf: &mut UnionFind<usize>, v: usize) -> (root: usize)
    ensures
        roots(*final(uf)) == with_value(roots(*old(uf)), v),
        root == roots(*final(uf))[v],
        roots(*final(uf)).dom().contains(root),
        roots(*final(uf))[root] == root,
{
    uf.find(v)
}

/// `UnionFind::union`: makes the sets of `a` and `b` one, represented by the representative
/// of one of the two. Other sets stay as they are. Which representative is kept is not
/// stated.
#[verifier::external_body]
pub(crate) fn union(uf: &mut UnionFind<usize>, a: usize, b: usize)
    ensures
        ({
            let before = with_value(with_value(roots(*old(uf)), a), b);
            exists|root: usize|
                (root == before[a] || root == before[b]) && roots(*final(uf))
                    == #[trigger] merged(before, before[a], before[b], root)
        }),
{
    uf.union(a, b)
}

/// `UnionFind::set_members`: the values in the set of `v`, in no particular order.
#[verifier::external_body]
pub(crate) fn set_members(uf: &mut UnionFind<usize>, v: usize) -> (members: Vec<usize>)
    ensures
        roots(*final(uf)) == with_value(roots(*old(uf)), v),
        forall|k: usize| #[trigger]
            members@.contains(k) <==> roots(*final(uf)).dom().contains(k) && roots(*final(uf))[k]
                == roots(*final(uf))[v],
{
    uf.set_members(v).to_vec()
}

/// `FxHashSet::default`: the empty set.
#[verifier::external_body]
pub(crate) fn new_set() -> (set: FxHashSet<(usize, usize)>)
    ensures
        set@.is_empty(),
{
    FxHashSet::default()
}

/// `FxHashSet::insert`: adds a pair.
#[verifier::external_body]
pub(crate) fn insert(set: &mut FxHashSet<(usize, usize)>, pair: (usize, usize))
    ensures
        final(set)@ == old(set)@.insert(pair),
{
    set.insert(pair);
}

/// `FxHashSet::contains`: whether a pair is there.
#[verifier::external_body]
pub(crate) fn contains(set: &FxHashSet<(usize, usize)>, pair: (usize, usize)) -> (r: bool)
    ensures
        r == set@.contains(pair),
{
    set.contains(&pair)
}

} // verus!

//! Arithmetic of row-major layouts.
//!
//! A layout is a sequence of extents, outermost dimension first. A position in it is
//! either a multi-index, with one entry per dimension, or the number of positions that
//! come before it in row-major order.

use vstd::arithmetic::div_mod::*;
use vstd::arithmetic::mul::*;
use vstd::prelude::*;

verus! {

/// Machine words as numbers.
pub open spec fn nats(words: Seq<usize>) -> Seq<nat> {
    words.map_values(|word: usize| word as nat)
}

/// The number of positions in a layout with the extents `sizes`.
pub open spec fn product(sizes: Seq<nat>) -> nat
    decreases sizes.len(),
{
    if sizes.len() == 0 {
        1
    } else {
        product(sizes.drop_last()) * sizes.last()
    }
}

/// The distance, in elements, between neighbours along dimension `d`.
pub open spec fn row_major_stride(sizes: Seq<nat>, d: int) -> nat {
    product(sizes.skip(d + 1))
}

/// `idxs` names a position of the layout `sizes`.
pub open spec fn in_bounds(sizes: Seq<nat>, idxs: Seq<nat>) -> bool {
    &&& idxs.len() == sizes.len()
    &&& forall|d: int| 0 <= d < sizes.len() ==> #[trigger] idxs[d] < sizes[d]
}

/// The number of positions before `idxs` in row-major order.
pub open spec fn linearize(sizes: Seq<nat>, idxs: Seq<nat>) -> nat
    decreases sizes.len(),
{
    if sizes.len() == 0 {
        0
    } else {
        linearize(sizes.drop_last(), idxs.drop_last()) * sizes.last()
            + idxs.last()
    }
}

/// The multi-index of position number `lin`. The innermost dimension varies fastest.
pub open spec fn delinearize(sizes: Seq<nat>, lin: nat) -> Seq<nat>
    decreases sizes.len(),
{
    if sizes.len() == 0 {
        Seq::empty()
    } else {
        let dim = sizes.last();
        delinearize(sizes.drop_last(), lin / dim).push(lin % dim)
    }
}

/// The sum of the products of the first `n` entries of `a` and `b`.
pub open spec fn dot_upto(a: Seq<nat>, b: Seq<nat>, n: nat) -> nat
    decreases n,
{
    if n == 0 {
        0
    } else {
        dot_upto(a, b, (n - 1) as nat) + a[n - 1] * b[n - 1]
    }
}

/// The sum of the products of the entries that `a` and `b` both have.
pub open spec fn dot(a: Seq<nat>, b: Seq<nat>) -> nat {
    dot_upto(
        a,
        b,
        if a.len() <= b.len() {
            a.len()
        } else {
            b.len()
        },
    )
}

/// No extent is zero, so that a remainder by each extent exists.
pub open spec fn no_zero(sizes: Seq<nat>) -> bool {
    forall|d: int| 0 <= d < sizes.len() ==> #[trigger] sizes[d] != 0
}

pub proof fn lemma_product_push(sizes: Seq<nat>, x: nat)
    ensures
        product(sizes.push(x)) == product(sizes) * x,
{
    assert(sizes.push(x).drop_last() =~= sizes);
}

/// The product splits at every point.
pub proof fn lemma_product_split(sizes: Seq<nat>, k: int)
    requires
        0 <= k <= sizes.len(),
    ensures
        product(sizes) == product(sizes.take(k)) * product(sizes.skip(k)),
    decreases sizes.len(),
{
    if k == sizes.len() {
        assert(sizes.take(k) =~= sizes);
        assert(sizes.skip(k) =~= Seq::<nat>::empty());
        lemma_mul_basics(product(sizes) as int);
    } else {
        let init = sizes.drop_last();
        lemma_product_split(init, k);
        assert(init.take(k) =~= sizes.take(k));
        assert(sizes.skip(k).drop_last() =~= init.skip(k));
        assert(sizes.skip(k).last() == sizes.last());
        lemma_mul_is_associative(
            product(init.take(k)) as int,
            product(init.skip(k)) as int,
            sizes.last() as int,
        );
    }
}

/// Peels the outermost extent off a product.
pub proof fn lemma_product_first(sizes: Seq<nat>)
    requires
        sizes.len() > 0,
    ensures
        product(sizes) == sizes[0] * product(sizes.skip(1)),
{
    lemma_product_split(sizes, 1);
    assert(sizes.take(1).drop_last() =~= Seq::<nat>::empty());
    assert(sizes.take(1).last() == sizes[0]);
    assert(product(sizes.take(1).drop_last()) == 1);
    assert(product(sizes.take(1)) == 1 * sizes[0]);
}

pub proof fn lemma_product_positive(sizes: Seq<nat>)
    ensures
        no_zero(sizes) ==> product(sizes) > 0,
        product(sizes) > 0 ==> no_zero(sizes),
    decreases sizes.len(),
{
    if sizes.len() > 0 {
        let init = sizes.drop_last();
        lemma_product_positive(init);
        let p = product(init) as int;
        let x = sizes.last() as int;
        if no_zero(sizes) {
            assert(sizes[sizes.len() - 1] != 0);
            assert(no_zero(init)) by {
                assert forall|d: int| 0 <= d < init.len() implies #[trigger] init[d] != 0 by {
                    assert(sizes[d] != 0);
                }
            }
            assert(p * x > 0) by (nonlinear_arith)
                requires
                    p > 0,
                    x > 0,
            ;
        }
        if product(sizes) > 0 {
            assert(p > 0 && x > 0) by (nonlinear_arith)
                requires
                    p * x > 0,
                    p >= 0,
                    x >= 0,
            ;
            assert forall|d: int| 0 <= d < sizes.len() implies #[trigger] sizes[d] != 0 by {
                if d < sizes.len() - 1 {
                    assert(init[d] != 0);
                }
            }
        }
    }
}

/// Every position number below the product has a multi-index in bounds, and that
/// multi-index comes back to the same number.
pub proof fn lemma_delinearize(sizes: Seq<nat>, lin: nat)
    requires
        lin < product(sizes),
    ensures
        in_bounds(sizes, delinearize(sizes, lin)),
        linearize(sizes, delinearize(sizes, lin)) == lin,
    decreases sizes.len(),
{
    if sizes.len() > 0 {
        let dim = sizes.last();
        let init = sizes.drop_last();
        lemma_product_positive(sizes);
        assert(sizes[sizes.len() - 1] != 0);
        let q = lin / dim;
        let p = product(init);
        lemma_fundamental_div_mod(lin as int, dim as int);
        lemma_mod_bound(lin as int, dim as int);
        assert(q < p) by (nonlinear_arith)
            requires
                lin < p * dim,
                lin as int == dim as int * q as int + (lin as int % dim as int),
                0 <= lin as int % dim as int,
                dim > 0,
        ;
        lemma_delinearize(init, q);
        let rest = delinearize(init, q);
        let idxs = delinearize(sizes, lin);
        assert(idxs.drop_last() =~= rest);
        assert(idxs.last() == lin % dim);
        lemma_mul_is_commutative(q as int, dim as int);
        assert forall|d: int| 0 <= d < sizes.len() implies #[trigger] idxs[d] < sizes[d] by {
            if d < init.len() {
                assert(idxs[d] == rest[d]);
                assert(rest[d] < init[d]);
            }
        }
    }
}

/// Every multi-index in bounds has a position number below the product, and that number
/// comes back to the same multi-index.
pub proof fn lemma_linearize(sizes: Seq<nat>, idxs: Seq<nat>)
    requires
        in_bounds(sizes, idxs),
    ensures
        linearize(sizes, idxs) < product(sizes),
        delinearize(sizes, linearize(sizes, idxs)) == idxs,
    decreases sizes.len(),
{
    if sizes.len() > 0 {
        let dim = sizes.last();
        let init = sizes.drop_last();
        let idxs_init = idxs.drop_last();
        assert(in_bounds(init, idxs_init)) by {
            assert forall|d: int| 0 <= d < init.len() implies #[trigger] idxs_init[d] < init[d] by {
                assert(idxs[d] < sizes[d]);
            }
        }
        assert(idxs[idxs.len() - 1] < sizes[sizes.len() - 1]);
        lemma_linearize(init, idxs_init);
        let q = linearize(init, idxs_init);
        let r = idxs.last();
        let p = product(init);
        let lin = linearize(sizes, idxs);
        assert(q * dim + r < p * dim) by (nonlinear_arith)
            requires
                q + 1 <= p,
                r < dim,
        ;
        lemma_fundamental_div_mod_converse(lin as int, dim as int, q as int, r as int);
        assert(delinearize(sizes, lin) =~= idxs);
    } else {
        assert(delinearize(sizes, 0) =~= idxs);
    }
}

/// With row-major strides, the strided sum of a multi-index is its position number.
pub proof fn lemma_dot_row_major(sizes: Seq<nat>, idxs: Seq<nat>, strides: Seq<nat>)
    requires
        idxs.len() == sizes.len(),
        strides.len() == sizes.len(),
        forall|d: int|
            0 <= d < sizes.len() ==> #[trigger] strides[d] == row_major_stride(sizes, d),
    ensures
        dot(idxs, strides) == linearize(sizes, idxs),
{
    let n = sizes.len();
    lemma_dot_prefix(sizes, idxs, strides, n);
    assert(idxs.take(n as int) =~= idxs);
    assert(sizes.take(n as int) =~= sizes);
    assert(product(sizes.skip(n as int)) == 1);
    lemma_mul_basics(linearize(sizes, idxs) as int);
}

proof fn lemma_dot_prefix(sizes: Seq<nat>, idxs: Seq<nat>, strides: Seq<nat>, k: nat)
    requires
        idxs.len() == sizes.len(),
        strides.len() == sizes.len(),
        k <= sizes.len(),
        forall|d: int|
            0 <= d < sizes.len() ==> #[trigger] strides[d] == row_major_stride(sizes, d),
    ensures
        dot_upto(idxs, strides, k) == linearize(sizes.take(k as int), idxs.take(k as int))
            * product(sizes.skip(k as int)),
    decreases k,
{
    let k_int = k as int;
    if k > 0 {
        lemma_dot_prefix(sizes, idxs, strides, (k - 1) as nat);
        let i = idxs.take(k_int);
        let s = sizes.take(k_int);
        assert(i.drop_last() =~= idxs.take(k_int - 1));
        assert(s.drop_last() =~= sizes.take(k_int - 1));
        assert(strides[k_int - 1] == product(sizes.skip(k_int)));
        lemma_product_first(sizes.skip(k_int - 1));
        assert(sizes.skip(k_int - 1).skip(1) =~= sizes.skip(k_int));
        let a = linearize(sizes.take(k_int - 1), idxs.take(k_int - 1)) as int;
        let x = sizes[k_int - 1] as int;
        let p = product(sizes.skip(k_int)) as int;
        let y = idxs[k_int - 1] as int;
        assert(a * (x * p) + y * p == (a * x + y) * p) by (nonlinear_arith);
        assert(linearize(s, i) == a * x + y);
    } else {
        lemma_mul_basics(product(sizes.skip(k_int)) as int);
    }
}

/// Multi-indices of different position numbers differ.
pub proof fn lemma_delinearize_injective(sizes: Seq<nat>, a: nat, b: nat)
    requires
        a < product(sizes),
        b < product(sizes),
        delinearize(sizes, a) == delinearize(sizes, b),
    ensures
        a == b,
{
    lemma_delinearize(sizes, a);
    lemma_delinearize(sizes, b);
}

/// Leading terms add up to no more than all of them.
pub proof fn lemma_dot_upto_monotone(a: Seq<nat>, b: Seq<nat>, m: nat, n: nat)
    requires
        m <= n,
    ensures
        dot_upto(a, b, m) <= dot_upto(a, b, n),
    decreases n,
{
    if m < n {
        lemma_dot_upto_monotone(a, b, m, (n - 1) as nat);
        lemma_mul_nonnegative(a[n - 1] as int, b[n - 1] as int);
    }
}

} // verus!

//! What types with dimensions have in common.

use crate::ir::TypeHandle;
use crate::row_major;
use crate::search;
use vstd::prelude::*;

verus! {

/// The extent of a dimension.
#[derive(Clone, Copy, Debug, PartialEq, Eq, Hash, Structural)]
pub enum Dimension {
    /// Known only when the program runs.
    Dynamic,
    /// Known from the type.
    Static(usize),
}

/// A dimension of a value that has the given size when the program runs.
pub open spec fn admits(dim: Dimension, size: nat) -> bool {
    match dim {
        Dimension::Static(n) => size == n,
        Dimension::Dynamic => true,
    }
}

/// Some size is that of both dimensions.
pub open spec fn agree(a: Dimension, b: Dimension) -> bool {
    exists|size: nat| #[trigger] admits(a, size) && admits(b, size)
}

/// The dimension at each index is dynamic.
pub open spec fn dynamic_at(shape: Seq<Dimension>) -> spec_fn(int) -> bool {
    |i: int| shape[i] is Dynamic
}

/// The number of dynamic dimensions.
pub open spec fn num_dynamic(shape: Seq<Dimension>) -> nat {
    search::count_where(shape.len(), dynamic_at(shape))
}

/// Every dimension is static.
pub open spec fn fully_static(shape: Seq<Dimension>) -> bool {
    forall|i: int| 0 <= i < shape.len() ==> #[trigger] shape[i] is Static
}

/// The extents of a fully static shape.
pub open spec fn static_sizes(shape: Seq<Dimension>) -> Seq<nat> {
    Seq::new(shape.len(), |i: int| shape[i]->Static_0 as nat)
}

/// The number of elements of a fully static shape.
pub open spec fn static_elements(shape: Seq<Dimension>) -> nat {
    row_major::product(static_sizes(shape))
}

/// Multiplying up the extents of a fully static shape, from the first one on, stays within
/// a machine word.
pub open spec fn countable(shape: Seq<Dimension>) -> bool {
    fully_static(shape) ==> forall|k: int|
        0 <= k <= shape.len() ==> row_major::product(#[trigger] static_sizes(shape).take(k))
            <= usize::MAX
}

/// Both dimensions are static, and they differ.
pub open spec fn static_mismatch(a: Dimension, b: Dimension) -> bool {
    a is Static && b is Static && a != b
}

/// Two shapes of one rank have no dimension in which both are static and differ.
pub open spec fn compatible_shapes(a: Seq<Dimension>, b: Seq<Dimension>) -> bool {
    forall|i: int| 0 <= i < a.len() && i < b.len() ==> !static_mismatch(#[trigger] a[i], b[i])
}

/// The dynamic dimensions of a shape.
pub open spec fn dynamic_only(shape: Seq<Dimension>) -> Seq<Dimension> {
    shape.filter(|dim: Dimension| dim is Dynamic)
}

/// Counting the dynamic dimensions gives as many as there are.
pub proof fn law_num_dynamic(shape: Seq<Dimension>)
    ensures
        num_dynamic(shape) == dynamic_only(shape).len(),
    decreases shape.len(),
{
    reveal(Seq::filter);
    if shape.len() > 0 {
        let init = shape.drop_last();
        law_num_dynamic(init);
        assert forall|i: int| 0 <= i < init.len() implies #[trigger] dynamic_at(init)(i)
            == dynamic_at(shape)(i) by {
            assert(init[i] == shape[i]);
        }
        search::lemma_count_where_same(init.len(), dynamic_at(init), dynamic_at(shape));
    }
}

/// The sizes are those that a value of the shape has when the program runs.
pub open spec fn has_sizes(shape: Seq<Dimension>, sizes: Seq<nat>) -> bool {
    &&& sizes.len() == shape.len()
    &&& forall|i: int| 0 <= i < shape.len() ==> admits(#[trigger] shape[i], sizes[i])
}

/// A fully static shape has its own extents as sizes, and no others.
pub proof fn lemma_static_sizes(shape: Seq<Dimension>, sizes: Seq<nat>)
    requires
        fully_static(shape),
    ensures
        has_sizes(shape, sizes) <==> sizes == static_sizes(shape),
{
    if has_sizes(shape, sizes) {
        assert forall|i: int| 0 <= i < shape.len() implies sizes[i] == static_sizes(shape)[i] by {
            assert(shape[i] is Static);
            assert(admits(shape[i], sizes[i]));
        }
        assert(sizes =~= static_sizes(shape));
    }
    assert forall|i: int| 0 <= i < shape.len() implies admits(
        #[trigger] shape[i],
        static_sizes(shape)[i],
    ) by {
        assert(shape[i] is Static);
    }
}

/// Two dimensions agree unless both are static and differ.
pub proof fn lemma_agree(a: Dimension, b: Dimension)
    ensures
        agree(a, b) <==> (a is Dynamic || b is Dynamic || a == b),
{
    match (a, b) {
        (Dimension::Static(n), _) => {
            assert(admits(a, n as nat));
        },
        (_, Dimension::Static(n)) => {
            assert(admits(a, n as nat));
        },
        _ => {
            assert(admits(a, 0));
        },
    }
}

/// Whether both dimensions are static and differ.
pub fn differ_statically(a: Dimension, b: Dimension) -> (r: bool)
    ensures
        r == static_mismatch(a, b),
{
    match (a, b) {
        (Dimension::Static(x), Dimension::Static(y)) => x != y,
        _ => false,
    }
}

/// Whether two shapes of one rank have no dimension in which both are static and differ.
pub fn shapes_compatible(a: &Vec<Dimension>, b: &Vec<Dimension>) -> (r: bool)
    requires
        a@.len() == b@.len(),
    ensures
        r == compatible_shapes(a@, b@),
{
    let mut i: usize = 0;
    while i < a.len()
        invariant
            i <= a@.len() == b@.len(),
            forall|k: int| 0 <= k < i ==> !static_mismatch(#[trigger] a@[k], b@[k]),
        decreases a@.len() - i,
    {
        if differ_statically(a[i], b[i]) {
            return false;
        }
        i += 1;
    }
    true
}

/// Whether two shapes are the same.
pub fn same_shape(a: &Vec<Dimension>, b: &Vec<Dimension>) -> (r: bool)
    ensures
        r == (a@ == b@),
{
    if a.len() != b.len() {
        return false;
    }
    let mut i: usize = 0;
    while i < a.len()
        invariant
            i <= a@.len() == b@.len(),
            forall|k: int| 0 <= k < i ==> a@[k] == b@[k],
        decreases a@.len() - i,
    {
        if a[i] != b[i] {
            return false;
        }
        i += 1;
    }
    assert(a@ =~= b@);
    true
}

/// A copy of a shape.
pub fn copy_shape(shape: &Vec<Dimension>) -> (r: Vec<Dimension>)
    ensures
        r@ == shape@,
{
    let mut copy: Vec<Dimension> = Vec::new();
    let mut i: usize = 0;
    while i < shape.len()
        invariant
            i <= shape@.len(),
            copy@ == shape@.take(i as int),
        decreases shape@.len() - i,
    {
        copy.push(shape[i]);
        i += 1;
        assert(shape@.take(i as int) =~= shape@.take(i - 1).push(shape@[i - 1]));
    }
    assert(shape@.take(shape@.len() as int) =~= shape@);
    copy
}

/// A type with one or more dimensions.
pub trait MultiDimensionalType {
    spec fn element(&self) -> TypeHandle;

    /// The type of the elements.
    fn element_type(&self) -> (r: TypeHandle)
        ensures
            r == self.element(),
    ;
}

/// A type with a known number of dimensions.
pub trait ShapedType: MultiDimensionalType {
    spec fn dims(&self) -> Seq<Dimension>;

    /// The extent of each dimension.
    fn shape(&self) -> (r: &Vec<Dimension>)
        ensures
            r@ == self.dims(),
    ;

    /// The number of dimensions.
    fn rank(&self) -> (r: usize)
        ensures
            r == self.dims().len(),
    {
        self.shape().len()
    }

    /// The number of dynamic dimensions.
    fn num_dynamic_dimensions(&self) -> (r: usize)
        ensures
            r == num_dynamic(self.dims()),
    {
        count_dynamic(self.shape())
    }

    /// The number of elements, if every dimension is static.
    fn num_elements(&self) -> (r: Option<usize>)
        requires
            countable(self.dims()),
        ensures
            r is Some <==> fully_static(self.dims()),
            r matches Some(n) ==> n == static_elements(self.dims()),
    {
        count_elements(self.shape())
    }
}

/// The number of dynamic dimensions in a shape.
pub fn count_dynamic(shape: &Vec<Dimension>) -> (r: usize)
    ensures
        r == num_dynamic(shape@),
{
    let mut n: usize = 0;
    let mut i: usize = 0;
    while i < shape.len()
        invariant
            i <= shape@.len(),
            n == search::count_where(i as nat, dynamic_at(shape@)),
            n <= i,
        decreases shape@.len() - i,
    {
        if let Dimension::Dynamic = shape[i] {
            n += 1;
        }
        i += 1;
    }
    n
}

/// The number of elements in a shape, if every dimension is static.
pub fn count_elements(shape: &Vec<Dimension>) -> (r: Option<usize>)
    requires
        countable(shape@),
    ensures
        r is Some <==> fully_static(shape@),
        r matches Some(n) ==> n == static_elements(shape@),
{
    let mut i: usize = 0;
    while i < shape.len()
        invariant
            i <= shape@.len(),
            forall|k: int| 0 <= k < i ==> #[trigger] shape@[k] is Static,
        decreases shape@.len() - i,
    {
        match shape[i] {
            Dimension::Static(_) => {},
            Dimension::Dynamic => {
                return None;
            },
        }
        i += 1;
    }
    let ghost sizes = static_sizes(shape@);
    let mut total: usize = 1;
    let mut j: usize = 0;
    assert(sizes.take(0) =~= Seq::<nat>::empty());
    while j < shape.len()
        invariant
            j <= shape@.len(),
            fully_static(shape@),
            countable(shape@),
            sizes == static_sizes(shape@),
            total == row_major::product(sizes.take(j as int)),
        decreases shape@.len() - j,
    {
        assert(shape@[j as int] is Static);
        proof {
            let next = sizes.take(j + 1);
            assert(next.drop_last() =~= sizes.take(j as int));
            assert(row_major::product(next) <= usize::MAX);
        }
        if let Dimension::Static(size) = shape[j] {
            total = total * size;
        }
        j += 1;
    }
    assert(sizes.take(shape@.len() as int) =~= sizes);
    Some(total)
}

} // verus!

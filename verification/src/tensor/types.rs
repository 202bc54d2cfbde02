//! Types of the tensor dialect.

use crate::ir::{Context, TypeHandle, TypeObj, TypeView};
use crate::memref::type_interfaces;
use crate::memref::type_interfaces::{Dimension, MultiDimensionalType, ShapedType};
use vstd::prelude::*;

verus! {

/// The dimension of `shape` at position `i` of a shape of the given rank, where the two
/// shapes are aligned at their last dimensions.
pub open spec fn aligned(shape: Seq<Dimension>, rank: nat, i: int) -> Option<Dimension> {
    if i >= rank - shape.len() {
        Some(shape[i - (rank - shape.len())])
    } else {
        None
    }
}

/// The dimension that two aligned dimensions broadcast to, if they are compatible.
pub open spec fn broadcast_dim(lhs: Dimension, rhs: Dimension) -> Option<Dimension> {
    if lhs == Dimension::Static(1) {
        Some(rhs)
    } else if rhs == Dimension::Static(1) {
        Some(lhs)
    } else if lhs is Dynamic || rhs is Dynamic {
        Some(Dimension::Dynamic)
    } else if lhs == rhs {
        Some(lhs)
    } else {
        None
    }
}

pub open spec fn larger(a: nat, b: nat) -> nat {
    if a >= b {
        a
    } else {
        b
    }
}

/// What two shapes broadcast to at position `i`, if they are compatible there.
pub open spec fn broadcast_at(lhs: Seq<Dimension>, rhs: Seq<Dimension>, i: int) -> Option<
    Dimension,
> {
    let rank = larger(lhs.len(), rhs.len());
    match (aligned(lhs, rank, i), aligned(rhs, rank, i)) {
        (Some(l), Some(r)) => broadcast_dim(l, r),
        (Some(l), None) => Some(l),
        (None, r) => r,
    }
}

/// Two shapes can be broadcast to a common one.
pub open spec fn compatible(lhs: Seq<Dimension>, rhs: Seq<Dimension>) -> bool {
    forall|i: int|
        0 <= i < larger(lhs.len(), rhs.len()) ==> #[trigger] broadcast_at(lhs, rhs, i) is Some
}

/// The shape that two shapes broadcast to, if they are compatible.
pub open spec fn broadcast(lhs: Seq<Dimension>, rhs: Seq<Dimension>) -> Option<Seq<Dimension>> {
    if compatible(lhs, rhs) {
        Some(
            Seq::new(
                larger(lhs.len(), rhs.len()),
                |i: int| broadcast_at(lhs, rhs, i)->Some_0,
            ),
        )
    } else {
        None
    }
}

/// A dimension can be repeated to make up another one.
pub open spec fn stretches_to(source: Dimension, result: Dimension) -> bool {
    source == Dimension::Static(1) || source is Dynamic || result is Dynamic || source == result
}

/// A shape can be repeated to make up another one, where the two are aligned at their last
/// dimensions.
pub open spec fn broadcasts_to(source: Seq<Dimension>, result: Seq<Dimension>) -> bool {
    &&& source.len() <= result.len()
    &&& forall|i: int|
        0 <= i < source.len() ==> stretches_to(
            #[trigger] source[i],
            result[i + (result.len() - source.len())],
        )
}

fn aligned_dim(shape: &[Dimension], rank: usize, i: usize) -> (r: Option<Dimension>)
    requires
        shape@.len() <= rank,
        i < rank,
    ensures
        r == aligned(shape@, rank as nat, i as int),
{
    let missing: usize = rank - shape.len();
    if i >= missing {
        Some(shape[i - missing])
    } else {
        None
    }
}

/// The shape that two shapes broadcast to, by the rules of NumPy.
///
/// A dynamic dimension is compatible with every dimension. The result is dynamic there,
/// which is also what a dynamic dimension and a static one of extent one give.
pub fn broadcast_shapes(lhs: &[Dimension], rhs: &[Dimension]) -> (r: Option<Vec<Dimension>>)
    ensures
        r is Some <==> broadcast(lhs@, rhs@) is Some,
        r matches Some(shape) ==> broadcast(lhs@, rhs@) == Some(shape@),
{
    let rank: usize = if lhs.len() >= rhs.len() {
        lhs.len()
    } else {
        rhs.len()
    };
    let mut shape: Vec<Dimension> = Vec::new();
    let mut i: usize = 0;
    while i < rank
        invariant
            i <= rank == larger(lhs@.len(), rhs@.len()),
            shape@.len() == i,
            forall|k: int| 0 <= k < i ==> #[trigger] broadcast_at(lhs@, rhs@, k) == Some(shape@[k]),
        decreases rank - i,
    {
        let dim: Option<Dimension> = match (aligned_dim(lhs, rank, i), aligned_dim(rhs, rank, i)) {
            (Some(l), Some(r)) => match (l, r) {
                (Dimension::Static(a), Dimension::Static(b)) => if a == 1 {
                    Some(r)
                } else if b == 1 {
                    Some(l)
                } else if a == b {
                    Some(l)
                } else {
                    None
                },
                _ => Some(Dimension::Dynamic),
            },
            (Some(l), None) => Some(l),
            (None, r) => r,
        };
        assert(dim == broadcast_at(lhs@, rhs@, i as int));
        match dim {
            Some(dim) => {
                shape.push(dim);
            },
            None => {
                return None;
            },
        }
        i += 1;
    }
    assert(broadcast(lhs@, rhs@)->Some_0 =~= shape@);
    Some(shape)
}

/// Whether `source` can be broadcast to `result`, by the rules of NumPy.
pub fn can_broadcast_to(source: &[Dimension], result: &[Dimension]) -> (r: bool)
    ensures
        r == broadcasts_to(source@, result@),
{
    if source.len() > result.len() {
        return false;
    }
    let missing: usize = result.len() - source.len();
    let mut i: usize = 0;
    while i < source.len()
        invariant
            i <= source@.len() <= result@.len(),
            missing == result@.len() - source@.len(),
            forall|k: int|
                0 <= k < i ==> stretches_to(
                    #[trigger] source@[k],
                    result@[k + (result@.len() - source@.len())],
                ),
        decreases source@.len() - i,
    {
        assert(result.len() == result@.len());
        let fits: bool = match (source[i], result[i + missing]) {
            (Dimension::Static(src), Dimension::Static(dst)) => src == 1 || src == dst,
            _ => true,
        };
        assert(fits == stretches_to(source@[i as int], result@[i + missing]));
        if !fits {
            return false;
        }
        i += 1;
    }
    true
}

/// The order of the two shapes does not matter.
pub proof fn law_broadcast_commutes(lhs: Seq<Dimension>, rhs: Seq<Dimension>)
    ensures
        broadcast(lhs, rhs) == broadcast(rhs, lhs),
{
    let rank = larger(lhs.len(), rhs.len());
    assert forall|i: int| 0 <= i < rank implies #[trigger] broadcast_at(lhs, rhs, i)
        == broadcast_at(rhs, lhs, i) by {}
    assert forall|i: int| 0 <= i < rank implies #[trigger] broadcast_at(rhs, lhs, i)
        == broadcast_at(lhs, rhs, i) by {}
    if compatible(lhs, rhs) {
        assert(compatible(rhs, lhs));
        assert(broadcast(lhs, rhs)->Some_0 =~= broadcast(rhs, lhs)->Some_0);
    } else {
        assert(!compatible(rhs, lhs));
    }
}

/// Both shapes can be broadcast to the shape that they broadcast to.
pub proof fn law_operands_broadcast_to_result(lhs: Seq<Dimension>, rhs: Seq<Dimension>)
    requires
        compatible(lhs, rhs),
    ensures
        broadcasts_to(lhs, broadcast(lhs, rhs)->Some_0),
        broadcasts_to(rhs, broadcast(lhs, rhs)->Some_0),
{
    let rank = larger(lhs.len(), rhs.len());
    let result = broadcast(lhs, rhs)->Some_0;
    assert forall|i: int| 0 <= i < lhs.len() implies stretches_to(
        #[trigger] lhs[i],
        result[i + (rank - lhs.len())],
    ) by {
        assert(broadcast_at(lhs, rhs, i + (rank - lhs.len())) is Some);
    }
    assert forall|i: int| 0 <= i < rhs.len() implies stretches_to(
        #[trigger] rhs[i],
        result[i + (rank - rhs.len())],
    ) by {
        assert(broadcast_at(lhs, rhs, i + (rank - rhs.len())) is Some);
    }
}

/// A shape broadcasts with itself, and with the shape of no dimensions, to itself.
pub proof fn law_broadcast_identities(shape: Seq<Dimension>)
    ensures
        broadcast(shape, shape) == Some(shape),
        broadcast(shape, Seq::empty()) == Some(shape),
        broadcasts_to(shape, shape),
{
    let none = Seq::<Dimension>::empty();
    assert forall|i: int| 0 <= i < shape.len() implies #[trigger] broadcast_at(shape, shape, i)
        == Some(shape[i]) by {}
    assert forall|i: int| 0 <= i < shape.len() implies #[trigger] broadcast_at(shape, none, i)
        == Some(shape[i]) by {}
    assert(broadcast(shape, shape)->Some_0 =~= shape);
    assert(broadcast(shape, none)->Some_0 =~= shape);
}

/// Two sizes broadcast to a third one: both are that size, or one is, and the other is one.
pub open spec fn sizes_broadcast(a: nat, b: nat, c: nat) -> bool {
    (a == c && b == c) || (a == 1 && b == c) || (a == c && b == 1)
}

/// Some sizes of two dimensions broadcast.
pub open spec fn meet(lhs: Dimension, rhs: Dimension) -> bool {
    exists|a: nat, b: nat, c: nat| #[trigger]
        sizes_broadcast(a, b, c) && type_interfaces::admits(lhs, a) && type_interfaces::admits(
            rhs,
            b,
        )
}

/// The dimension of a shape that is `k`-th from its end.
pub open spec fn from_end(shape: Seq<Dimension>, k: int) -> Dimension {
    shape[shape.len() - 1 - k]
}

/// Two static extents meet only if they are equal or one of them is one, and a dynamic one
/// meets every dimension.
pub proof fn law_meet(lhs: Dimension, rhs: Dimension)
    ensures
        meet(lhs, rhs) <==> (lhs is Dynamic || rhs is Dynamic || lhs == rhs || lhs
            == Dimension::Static(1) || rhs == Dimension::Static(1)),
{
    match (lhs, rhs) {
        (Dimension::Static(a), Dimension::Static(b)) => {
            if a == b || b == 1 {
                assert(sizes_broadcast(a as nat, b as nat, a as nat));
            } else if a == 1 {
                assert(sizes_broadcast(a as nat, b as nat, b as nat));
            }
        },
        (Dimension::Static(a), Dimension::Dynamic) => {
            assert(sizes_broadcast(a as nat, a as nat, a as nat));
        },
        (Dimension::Dynamic, Dimension::Static(b)) => {
            assert(sizes_broadcast(b as nat, b as nat, b as nat));
        },
        (Dimension::Dynamic, Dimension::Dynamic) => {
            assert(sizes_broadcast(0, 0, 0));
        },
    }
}

/// Shapes broadcast exactly if, counted from the end, each dimension of one meets that of the
/// other, as far as both go. The result is as long as the longer shape. Where only one shape
/// goes, the result has its dimension. Elsewhere it has every size that sizes of the two
/// dimensions broadcast to, and it is dynamic exactly if one of the two is.
pub proof fn law_broadcast_meets(lhs: Seq<Dimension>, rhs: Seq<Dimension>)
    ensures
        broadcast(lhs, rhs) is Some <==> forall|k: int|
            0 <= k < lhs.len() && k < rhs.len() ==> #[trigger] meet(
                from_end(lhs, k),
                from_end(rhs, k),
            ),
        broadcast(lhs, rhs) matches Some(result) ==> {
            &&& result.len() >= lhs.len() && result.len() >= rhs.len()
            &&& result.len() == lhs.len() || result.len() == rhs.len()
            &&& forall|k: int|
                0 <= k < result.len() ==> {
                    let dim = #[trigger] from_end(result, k);
                    if k >= rhs.len() {
                        dim == from_end(lhs, k)
                    } else if k >= lhs.len() {
                        dim == from_end(rhs, k)
                    } else {
                        &&& dim is Dynamic <==> from_end(lhs, k) is Dynamic || from_end(
                            rhs,
                            k,
                        ) is Dynamic
                        &&& forall|a: nat, b: nat, c: nat|
                            type_interfaces::admits(from_end(lhs, k), a)
                                && type_interfaces::admits(from_end(rhs, k), b)
                                && #[trigger] sizes_broadcast(a, b, c) ==> type_interfaces::admits(
                                dim,
                                c,
                            )
                    }
                }
        },
{
    let rank = larger(lhs.len(), rhs.len());
    assert forall|k: int| 0 <= k < lhs.len() && k < rhs.len() implies (#[trigger] meet(
        from_end(lhs, k),
        from_end(rhs, k),
    ) <==> broadcast_at(lhs, rhs, rank - 1 - k) is Some) by {
        law_meet(from_end(lhs, k), from_end(rhs, k));
    }
    if compatible(lhs, rhs) {
        assert forall|k: int| 0 <= k < lhs.len() && k < rhs.len() implies #[trigger] meet(
            from_end(lhs, k),
            from_end(rhs, k),
        ) by {
            assert(broadcast_at(lhs, rhs, rank - 1 - k) is Some);
        }
    }
    if forall|k: int|
        0 <= k < lhs.len() && k < rhs.len() ==> #[trigger] meet(
            from_end(lhs, k),
            from_end(rhs, k),
        ) {
        assert forall|i: int| 0 <= i < rank implies #[trigger] broadcast_at(
            lhs,
            rhs,
            i,
        ) is Some by {
            let k = rank - 1 - i;
            if k < lhs.len() && k < rhs.len() {
                assert(meet(from_end(lhs, k), from_end(rhs, k)));
            }
        }
    }
}

/// A shape can be repeated to make up another one exactly if it is not longer and, counted from
/// the end, each of its dimensions has a size that is one or a size of the other dimension.
pub proof fn law_broadcasts_to_sizes(source: Seq<Dimension>, result: Seq<Dimension>)
    ensures
        broadcasts_to(source, result) <==> {
            &&& source.len() <= result.len()
            &&& forall|k: int|
                0 <= k < source.len() ==> (type_interfaces::admits(#[trigger] from_end(source, k), 1)
                    || type_interfaces::agree(from_end(source, k), from_end(result, k)))
        },
{
    if source.len() <= result.len() {
        assert forall|k: int| 0 <= k < source.len() implies (stretches_to(
            #[trigger] from_end(source, k),
            from_end(result, k),
        ) <==> type_interfaces::admits(from_end(source, k), 1) || type_interfaces::agree(
            from_end(source, k),
            from_end(result, k),
        )) by {
            type_interfaces::lemma_agree(from_end(source, k), from_end(result, k));
        }
        if broadcasts_to(source, result) {
            assert forall|k: int| 0 <= k < source.len() implies (type_interfaces::admits(
                #[trigger] from_end(source, k),
                1,
            ) || type_interfaces::agree(from_end(source, k), from_end(result, k))) by {
                assert(stretches_to(
                    source[source.len() - 1 - k],
                    result[source.len() - 1 - k + (result.len() - source.len())],
                ));
            }
        } else {
            let i = choose|i: int|
                0 <= i < source.len() && !stretches_to(
                    #[trigger] source[i],
                    result[i + (result.len() - source.len())],
                );
            let k = source.len() - 1 - i;
            assert(from_end(source, k) == source[i]);
            assert(from_end(result, k) == result[i + (result.len() - source.len())]);
        }
    }
}

/// Tensor with a known number of dimensions.
#[derive(Debug)]
pub struct RankedTensorType {
    pub element_type: TypeHandle,
    pub shape: Vec<Dimension>,
}

impl MultiDimensionalType for RankedTensorType {
    open spec fn element(&self) -> TypeHandle {
        self.element_type
    }

    fn element_type(&self) -> (r: TypeHandle) {
        self.element_type
    }
}

impl ShapedType for RankedTensorType {
    open spec fn dims(&self) -> Seq<Dimension> {
        self.shape@
    }

    fn shape(&self) -> (r: &Vec<Dimension>) {
        &self.shape
    }
}

impl RankedTensorType {
    /// The handle of the tensor type with the given element type and shape.
    pub fn get(ctx: &mut Context, element_type: TypeHandle, shape: Vec<Dimension>) -> (r: TypeHandle)
        requires
            old(ctx).wf(),
        ensures
            final(ctx).wf(),
            final(ctx).extends(*old(ctx)),
            final(ctx).has(r),
            final(ctx)@[r.id as int] == (TypeView::RankedTensor { element_type, shape: shape@ }),
    {
        ctx.intern(TypeObj::RankedTensor(RankedTensorType { element_type, shape }))
    }
}

/// Tensor with an unknown number of dimensions.
#[derive(Debug)]
pub struct UnrankedTensorType {
    pub element_type: TypeHandle,
}

impl MultiDimensionalType for UnrankedTensorType {
    open spec fn element(&self) -> TypeHandle {
        self.element_type
    }

    fn element_type(&self) -> (r: TypeHandle) {
        self.element_type
    }
}

impl UnrankedTensorType {
    /// The handle of the unranked tensor type with the given element type.
    pub fn get(ctx: &mut Context, element_type: TypeHandle) -> (r: TypeHandle)
        requires
            old(ctx).wf(),
        ensures
            final(ctx).wf(),
            final(ctx).extends(*old(ctx)),
            final(ctx).has(r),
            final(ctx)@[r.id as int] == TypeView::UnrankedTensor(element_type),
    {
        ctx.intern(TypeObj::UnrankedTensor(UnrankedTensorType { element_type }))
    }
}

} // verus!

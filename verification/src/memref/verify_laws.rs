//! What the checks of the memref dialect make sure of.

use crate::ir;
use crate::ir::{Context, TypeHandle, Value};
use crate::memref::attributes::SliceParamAttr;
use crate::memref::ops::{
    AllocOp, AllocOpVerifyError, CopyOp, CopyOpVerifyErr, LoadOp, LoadOpVerifyErr, MatMulOp, MatMulOpVerifyErr,
    ReshapeOp, ReshapeOpVerifyErr, StoreOp, StoreOpVerifyError, SubviewOp, SubviewOpVerifyErr,
};
use crate::memref::slices;
use crate::memref::type_interfaces;
use crate::memref::type_interfaces::Dimension;
use crate::row_major;
use crate::search;
use vstd::prelude::*;

verus! {

/// The type is one of memrefs with the given elements that can have the given sizes.
pub open spec fn is_memref(
    ctx: Context,
    ty: TypeHandle,
    element_type: TypeHandle,
    sizes: Seq<nat>,
) -> bool {
    ctx.as_memref(ty) matches Some(memref) && memref.element_type == element_type
        && type_interfaces::has_sizes(memref.shape, sizes)
}

/// The operands from number `first` on are of index type.
pub open spec fn indices_from(ctx: Context, operands: Seq<Value>, first: int) -> bool {
    forall|i: int| first <= i < operands.len() ==> ctx.get((#[trigger] operands[i]).ty) is Index
}

pub proof fn lemma_indices_from(ctx: Context, operands: Seq<Value>, first: int)
    requires
        0 <= first <= operands.len(),
    ensures
        ir::all_index(ctx, operands.skip(first)) <==> indices_from(ctx, operands, first),
{
    let rest = operands.skip(first);
    if ir::all_index(ctx, rest) {
        assert forall|i: int| first <= i < operands.len() implies ctx.get(
            (#[trigger] operands[i]).ty,
        ) is Index by {
            assert(rest[i - first] == operands[i]);
        }
    }
}

/// A memref is allocated from a size for each dynamic dimension, and from no others.
pub proof fn law_alloc_verifies(ctx: Context, op: AllocOp)
    requires
        op.wf(ctx),
    ensures
        ({
            let shape = ctx.as_memref(op.op.result_types@[0])->0.shape;
            let count = type_interfaces::dynamic_only(shape).len();
            &&& op.verdict(ctx) is Ok <==> op.op.operands@.len() == count
            &&& op.verdict(ctx) matches Err(
                AllocOpVerifyError::NumDynamicDimOperandsDoesNotMatchNumDynamicDims {
                    expected,
                    got,
                },
            ) ==> expected == count as usize && got == op.op.operands@.len() as usize
        }),
{
    type_interfaces::law_num_dynamic(ctx.as_memref(op.op.result_types@[0])->0.shape);
}

/// A value is stored exactly if it is of the type of the elements, and there is one index, of
/// index type, for each dimension.
pub proof fn law_store_verifies(ctx: Context, op: StoreOp)
    requires
        op.wf(ctx),
    ensures
        ({
            let memref = ctx.as_memref(op.op.operands@[1].ty)->0;
            let typed = op.op.operands@[0].ty == memref.element_type;
            let counted = op.op.operands@.len() == memref.shape.len() + 2;
            &&& op.verdict(ctx) is Ok <==> typed && counted && indices_from(ctx, op.op.operands@, 2)
            &&& op.verdict(ctx) matches Err(error) ==> match error {
                StoreOpVerifyError::FirstOperandNotSameTypeAsMemrefElementType => !typed,
                StoreOpVerifyError::NumIndicesDoesNotMatchMemrefRank { expected, got } => typed
                    && !counted && expected == memref.shape.len() as usize && got == (
                op.op.operands@.len() - 2) as usize,
                StoreOpVerifyError::IndexOperandNotOfIndexType => typed && counted
                    && !indices_from(ctx, op.op.operands@, 2),
            }
        }),
{
    lemma_indices_from(ctx, op.op.operands@, 2);
}

/// An element is loaded exactly if the result is of the type of the elements, and there is one
/// index, of index type, for each dimension.
pub proof fn law_load_verifies(ctx: Context, op: LoadOp)
    requires
        op.wf(ctx),
    ensures
        ({
            let memref = ctx.as_memref(op.op.operands@[0].ty)->0;
            let typed = op.op.result_types@[0] == memref.element_type;
            let counted = op.op.operands@.len() == memref.shape.len() + 1;
            &&& op.verdict(ctx) is Ok <==> typed && counted && indices_from(ctx, op.op.operands@, 1)
            &&& op.verdict(ctx) matches Err(error) ==> match error {
                LoadOpVerifyErr::ResultTypeNotSameAsMemrefElementType => !typed,
                LoadOpVerifyErr::NumIndicesDoesNotMatchMemrefRank { expected, got } => typed
                    && !counted && expected == memref.shape.len() as usize && got == (
                op.op.operands@.len() - 1) as usize,
                LoadOpVerifyErr::IndexOperandNotOfIndexType => typed && counted && !indices_from(
                    ctx,
                    op.op.operands@,
                    1,
                ),
            }
        }),
{
    lemma_indices_from(ctx, op.op.operands@, 1);
}

/// The result and the factors of a product have sizes M by N, M by K and K by N.
pub open spec fn product_sizes(
    ctx: Context,
    op: MatMulOp,
    element_type: TypeHandle,
    m: nat,
    k: nat,
    n: nat,
) -> bool {
    &&& is_memref(ctx, op.op.operands@[0].ty, element_type, seq![m, n])
    &&& is_memref(ctx, op.op.operands@[1].ty, element_type, seq![m, k])
    &&& is_memref(ctx, op.op.operands@[2].ty, element_type, seq![k, n])
}

/// The type is one of matrices.
pub open spec fn is_matrix(ctx: Context, ty: TypeHandle) -> bool {
    ctx.as_memref(ty) matches Some(memref) && memref.shape.len() == 2
}

/// A product is valid exactly if there are an element type and M, K and N with which the types
/// of the operands all agree. The extents that are reported otherwise are static, stand in the
/// types, and differ.
pub proof fn law_mat_mul_verifies(ctx: Context, op: MatMulOp)
    requires
        op.wf(ctx),
    ensures
        op.verdict(ctx) is Ok <==> exists|element_type: TypeHandle, m: nat, k: nat, n: nat|
            #[trigger] product_sizes(ctx, op, element_type, m, k, n),
        ({
            let res = ctx.as_memref(op.op.operands@[0].ty);
            let lhs = ctx.as_memref(op.op.operands@[1].ty);
            let rhs = ctx.as_memref(op.op.operands@[2].ty);
            let matrices = is_matrix(ctx, op.op.operands@[0].ty) && is_matrix(
                ctx,
                op.op.operands@[1].ty,
            ) && is_matrix(ctx, op.op.operands@[2].ty);
            let alike = lhs->0.element_type == rhs->0.element_type && lhs->0.element_type
                == res->0.element_type;
            op.verdict(ctx) matches Err(error) ==> match error {
                MatMulOpVerifyErr::OperandNot2DMemref => !matrices,
                MatMulOpVerifyErr::ElementTypeMismatch => matrices && !alike,
                MatMulOpVerifyErr::InnerDimMismatch { lhs_k, rhs_k } => matrices && alike && lhs_k
                    != rhs_k && lhs->0.shape[1] == Dimension::Static(lhs_k) && rhs->0.shape[0]
                    == Dimension::Static(rhs_k),
                MatMulOpVerifyErr::ResultDimMismatch { dim, result_d, expected } => {
                    &&& matrices && alike && type_interfaces::agree(
                        lhs->0.shape[1],
                        rhs->0.shape[0],
                    )
                    &&& dim < 2 && result_d != expected
                    &&& res->0.shape[dim as int] == Dimension::Static(result_d)
                    &&& (if dim == 0 {
                        lhs->0.shape[0]
                    } else {
                        rhs->0.shape[1]
                    }) == Dimension::Static(expected)
                },
            }
        }),
{
    if let (Some(res), Some(lhs), Some(rhs)) = (
        ctx.as_memref(op.op.operands@[0].ty),
        ctx.as_memref(op.op.operands@[1].ty),
        ctx.as_memref(op.op.operands@[2].ty),
    ) {
        type_interfaces::lemma_agree(lhs.shape[1], rhs.shape[0]);
        type_interfaces::lemma_agree(lhs.shape[0], res.shape[0]);
        type_interfaces::lemma_agree(rhs.shape[1], res.shape[1]);
        if op.verdict(ctx) is Ok {
            let m = choose|size: nat| #[trigger]
                type_interfaces::admits(lhs.shape[0], size) && type_interfaces::admits(
                    res.shape[0],
                    size,
                );
            let n = choose|size: nat| #[trigger]
                type_interfaces::admits(rhs.shape[1], size) && type_interfaces::admits(
                    res.shape[1],
                    size,
                );
            let k = choose|size: nat| #[trigger]
                type_interfaces::admits(lhs.shape[1], size) && type_interfaces::admits(
                    rhs.shape[0],
                    size,
                );
            assert(product_sizes(ctx, op, lhs.element_type, m, k, n));
        }
    }
    if exists|element_type: TypeHandle, m: nat, k: nat, n: nat| #[trigger]
        product_sizes(ctx, op, element_type, m, k, n) {
        let (element_type, m, k, n) = choose|element_type: TypeHandle, m: nat, k: nat, n: nat|
            #[trigger] product_sizes(ctx, op, element_type, m, k, n);
        let res = ctx.as_memref(op.op.operands@[0].ty)->Some_0;
        let lhs = ctx.as_memref(op.op.operands@[1].ty)->Some_0;
        let rhs = ctx.as_memref(op.op.operands@[2].ty)->Some_0;
        assert(type_interfaces::admits(res.shape[0], m));
        assert(type_interfaces::admits(res.shape[1], n));
        assert(type_interfaces::admits(lhs.shape[0], m));
        assert(type_interfaces::admits(lhs.shape[1], k));
        assert(type_interfaces::admits(rhs.shape[0], k));
        assert(type_interfaces::admits(rhs.shape[1], n));
    }
}

/// A memref is copied to another one exactly if there are an element type and sizes that both
/// have.
pub proof fn law_copy_verifies(ctx: Context, op: CopyOp)
    requires
        op.wf(ctx),
    ensures
        op.verdict(ctx) is Ok <==> exists|element_type: TypeHandle, sizes: Seq<nat>|
            #[trigger] is_memref(ctx, op.op.operands@[0].ty, element_type, sizes) && is_memref(
                ctx,
                op.op.operands@[1].ty,
                element_type,
                sizes,
            ),
        ({
            let destination = ctx.as_memref(op.op.operands@[0].ty)->0;
            let source = ctx.as_memref(op.op.operands@[1].ty)->0;
            op.verdict(ctx) matches Err(error) ==> match error {
                CopyOpVerifyErr::ElementTypeMismatch => destination.element_type
                    != source.element_type,
                CopyOpVerifyErr::RankMismatch => destination.element_type == source.element_type
                    && destination.shape.len() != source.shape.len(),
                CopyOpVerifyErr::IncompatibleShapes => destination.element_type
                    == source.element_type && destination.shape.len() == source.shape.len(),
            }
        }),
{
    let destination = ctx.as_memref(op.op.operands@[0].ty)->0;
    let source = ctx.as_memref(op.op.operands@[1].ty)->0;
    if op.verdict(ctx) is Ok {
        let sizes = Seq::new(
            source.shape.len(),
            |i: int|
                match (destination.shape[i], source.shape[i]) {
                    (Dimension::Static(n), _) => n as nat,
                    (_, Dimension::Static(n)) => n as nat,
                    _ => 0nat,
                },
        );
        assert forall|i: int| 0 <= i < destination.shape.len() implies type_interfaces::admits(
            #[trigger] destination.shape[i],
            sizes[i],
        ) by {}
        assert forall|i: int| 0 <= i < source.shape.len() implies type_interfaces::admits(
            #[trigger] source.shape[i],
            sizes[i],
        ) by {
            assert(!type_interfaces::static_mismatch(destination.shape[i], source.shape[i]));
        }
        assert(is_memref(ctx, op.op.operands@[0].ty, source.element_type, sizes));
    }
    if exists|element_type: TypeHandle, sizes: Seq<nat>| #[trigger]
        is_memref(ctx, op.op.operands@[0].ty, element_type, sizes) && is_memref(
            ctx,
            op.op.operands@[1].ty,
            element_type,
            sizes,
        ) {
        let (element_type, sizes) = choose|element_type: TypeHandle, sizes: Seq<nat>| #[trigger]
            is_memref(ctx, op.op.operands@[0].ty, element_type, sizes) && is_memref(
                ctx,
                op.op.operands@[1].ty,
                element_type,
                sizes,
            );
        assert forall|i: int|
            0 <= i < destination.shape.len() && i
                < source.shape.len() implies !type_interfaces::static_mismatch(
            #[trigger] destination.shape[i],
            source.shape[i],
        ) by {
            assert(type_interfaces::admits(destination.shape[i], sizes[i]));
            assert(type_interfaces::admits(source.shape[i], sizes[i]));
        }
    }
}

/// A view is made exactly if source and result have one rank, and the slice is well-formed.
pub proof fn law_subview_is_well_formed(ctx: Context, op: SubviewOp)
    requires
        op.wf(ctx),
    ensures
        op.verdict(ctx) is Ok <==> {
            let rank = ctx.as_memref(op.op.operands@[0].ty)->0.shape.len();
            &&& ctx.as_memref(op.op.result_types@[0])->0.shape.len() == rank
            &&& op.slice_params matches Some(params) && slices::well_sliced(
                ctx,
                params,
                rank,
                op.op.operands@.skip(1),
            )
        },
{
    if let Some(params) = op.slice_params {
        slices::lemma_well_sliced(
            ctx,
            params,
            ctx.as_memref(op.op.operands@[0].ty)->0.shape.len(),
            op.op.operands@.skip(1),
        );
    }
}

/// A memref is given another shape exactly if the elements are of one type, there is one size, of
/// index type, for each dynamic dimension of the result, and sizes of the two shapes, where both
/// are static, make for as many elements.
pub proof fn law_reshape_verifies(ctx: Context, op: ReshapeOp)
    requires
        op.wf(ctx),
    ensures
        op.verdict(ctx) is Ok <==> {
            let result = ctx.as_memref(op.op.result_types@[0])->0;
            &&& ctx.as_memref(op.op.operands@[0].ty) matches Some(source) && source.element_type
                == result.element_type && (type_interfaces::fully_static(source.shape)
                && type_interfaces::fully_static(result.shape) ==> forall|
                before: Seq<nat>,
                after: Seq<nat>,
            | #[trigger]
                type_interfaces::has_sizes(source.shape, before)
                    && #[trigger] type_interfaces::has_sizes(result.shape, after)
                    ==> row_major::product(before) == row_major::product(after))
            &&& op.op.operands@.len() - 1 == type_interfaces::dynamic_only(result.shape).len()
            &&& indices_from(ctx, op.op.operands@, 1)
        },
{
    let result = ctx.as_memref(op.op.result_types@[0])->0;
    type_interfaces::law_num_dynamic(result.shape);
    lemma_indices_from(ctx, op.op.operands@, 1);
    if let Some(source) = ctx.as_memref(op.op.operands@[0].ty) {
        if type_interfaces::fully_static(source.shape) && type_interfaces::fully_static(
            result.shape,
        ) {
            let before = type_interfaces::static_sizes(source.shape);
            let after = type_interfaces::static_sizes(result.shape);
            type_interfaces::lemma_static_sizes(source.shape, before);
            type_interfaces::lemma_static_sizes(result.shape, after);
            assert forall|b: Seq<nat>, a: Seq<nat>| #[trigger]
                type_interfaces::has_sizes(source.shape, b)
                    && #[trigger] type_interfaces::has_sizes(result.shape, a) implies b == before
                && a == after by {
                type_interfaces::lemma_static_sizes(source.shape, b);
                type_interfaces::lemma_static_sizes(result.shape, a);
            }
        }
    }
}

/// What is wrong with a subview that is not valid, and where.
pub proof fn law_subview_errors(ctx: Context, op: SubviewOp)
    requires
        op.wf(ctx),
        op.op.operands@.len() <= usize::MAX,
        op.slice_params matches Some(params) ==> params.steps@.len() <= usize::MAX,
    ensures
        ({
            let rank = ctx.as_memref(op.op.operands@[0].ty)->0.shape.len();
            let params = op.slice_params->0;
            op.verdict(ctx) matches Err(error) ==> match error {
                SubviewOpVerifyErr::ResultSourceRankMismatch => ctx.as_memref(
                    op.op.result_types@[0],
                )->0.shape.len() != rank,
                SubviewOpVerifyErr::MissingSliceParamsAttr => op.slice_params is None,
                SubviewOpVerifyErr::NumOffsetsMismatch { expected, got } => expected == rank as usize && got
                    == params.offsets@.len() as usize && params.offsets@.len() != rank,
                SubviewOpVerifyErr::NumSizesMismatch { expected, got } => expected == rank as usize && got
                    == params.sizes@.len() as usize && params.sizes@.len() != rank,
                SubviewOpVerifyErr::NumStepsMismatch { expected, got } => expected == rank as usize && got
                    == params.steps@.len() as usize && params.steps@.len() != rank,
                SubviewOpVerifyErr::InvalidStaticStep { dim } => {
                    &&& dim < rank && params.steps@[dim as int] == SliceParamAttr::Static(0)
                    &&& forall|i: int|
                        0 <= i < dim ==> #[trigger] params.steps@[i] != SliceParamAttr::Static(0)
                },
                SubviewOpVerifyErr::NonIndexOperand { index, ty } => {
                    &&& 1 <= index < op.op.operands@.len()
                    &&& op.op.operands@[index as int].ty == ty && !(ctx.get(ty) is Index)
                    &&& forall|i: int|
                        1 <= i < index ==> ctx.get((#[trigger] op.op.operands@[i]).ty) is Index
                },
                SubviewOpVerifyErr::NumDynamicOperandsMismatch { expected, got } => expected == (
                slices::operand_params(params.offsets@).len() + slices::operand_params(
                    params.sizes@,
                ).len() + slices::operand_params(params.steps@).len()) as usize && got == (
                op.op.operands@.len() - 1) as usize,
            }
        }),
{
    if let Some(params) = op.slice_params {
        let dynamic = op.op.operands@.skip(1);
        let zero = slices::zero_at(params.steps@);
        let other = ir::non_index_at(ctx, dynamic);
        slices::law_num_operand_params(params.offsets@);
        slices::law_num_operand_params(params.sizes@);
        slices::law_num_operand_params(params.steps@);
        search::lemma_first_where(params.steps@.len(), zero);
        search::lemma_first_where(dynamic.len(), other);
        if let Some(dim) = slices::first_zero_step(params.steps@) {
            assert forall|i: int| 0 <= i < dim implies #[trigger] params.steps@[i]
                != SliceParamAttr::Static(0) by {
                assert(!zero(i));
            }
        }
        if let Some(k) = search::first_where(dynamic.len(), other) {
            assert(other(k));
            assert(dynamic[k] == op.op.operands@[k + 1]);
            assert forall|i: int| 1 <= i < k + 1 implies ctx.get(
                (#[trigger] op.op.operands@[i]).ty,
            ) is Index by {
                assert(!other(i - 1));
                assert(dynamic[i - 1] == op.op.operands@[i]);
            }
        }
    }
}

/// What is wrong with a reshape that is not valid.
pub proof fn law_reshape_errors(ctx: Context, op: ReshapeOp)
    requires
        op.wf(ctx),
    ensures
        ({
            let result = ctx.as_memref(op.op.result_types@[0])->0;
            let source = ctx.as_memref(op.op.operands@[0].ty);
            op.verdict(ctx) matches Err(error) ==> match error {
                ReshapeOpVerifyErr::SourceNotRankedMemref => source is None,
                ReshapeOpVerifyErr::ElementTypeMismatch => source is Some && source->0.element_type
                    != result.element_type,
                ReshapeOpVerifyErr::DynDimCountMismatch { expected, got } => expected
                    == type_interfaces::dynamic_only(result.shape).len() as usize && got == (
                op.op.operands@.len() - 1) as usize && type_interfaces::dynamic_only(
                    result.shape,
                ).len() != op.op.operands@.len() - 1,
                ReshapeOpVerifyErr::DynDimNotIndex => exists|i: int|
                    1 <= i < op.op.operands@.len() && !(ctx.get(
                        (#[trigger] op.op.operands@[i]).ty,
                    ) is Index),
                ReshapeOpVerifyErr::ElementCountMismatch { src_count, result_count } => exists|
                    before: Seq<nat>,
                    after: Seq<nat>,
                | #[trigger]
                    type_interfaces::has_sizes(source->0.shape, before)
                        && #[trigger] type_interfaces::has_sizes(result.shape, after)
                        && row_major::product(before) as usize == src_count && row_major::product(
                        after,
                    ) as usize == result_count && row_major::product(before)
                        != row_major::product(after),
            }
        }),
{
    let result = ctx.as_memref(op.op.result_types@[0])->0;
    let dynamic = op.op.operands@.skip(1);
    type_interfaces::law_num_dynamic(result.shape);
    if !ir::all_index(ctx, dynamic) {
        let k = choose|k: int|
            0 <= k < dynamic.len() && !(ctx.get((#[trigger] dynamic[k]).ty) is Index);
        assert(op.op.operands@[k + 1] == dynamic[k]);
    }
    if let Some(source) = ctx.as_memref(op.op.operands@[0].ty) {
        if type_interfaces::fully_static(source.shape) && type_interfaces::fully_static(
            result.shape,
        ) {
            let before = type_interfaces::static_sizes(source.shape);
            let after = type_interfaces::static_sizes(result.shape);
            type_interfaces::lemma_static_sizes(source.shape, before);
            type_interfaces::lemma_static_sizes(result.shape, after);
            assert(type_interfaces::has_sizes(source.shape, before));
            assert(type_interfaces::has_sizes(result.shape, after));
        }
    }
}

} // verus!

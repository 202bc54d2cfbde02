//! What the checks of the tensor dialect make sure of.

use crate::ir;
use crate::ir::{Context, TypeHandle};
use crate::memref::attributes::SliceParamAttr;
use crate::memref::slices;
use crate::memref::type_interfaces;
use crate::memref::type_interfaces::Dimension;
use crate::row_major;
use crate::search;
use crate::tensor::ops;
use crate::tensor::ops::{
    BatchMatMulOp, BatchMatMulOpVerifyErr, ExtractOp, ExtractOpVerifyErr, ExtractSliceOp,
    ExtractSliceOpVerifyErr, GenerateOp, GenerateOpVerifyErr, InsertSliceOp,
    InsertSliceOpVerifyErr, MatMulOp, MatMulOpVerifyErr, ReshapeOp, ReshapeOpVerifyErr,
};
use vstd::prelude::*;

verus! {

/// The type is one of tensors with the given elements that can have the given sizes.
pub open spec fn is_tensor(
    ctx: Context,
    ty: TypeHandle,
    element_type: TypeHandle,
    sizes: Seq<nat>,
) -> bool {
    ctx.as_tensor(ty) matches Some(tensor) && tensor.element_type == element_type
        && type_interfaces::has_sizes(tensor.shape, sizes)
}

/// Some size is that of all three dimensions.
pub open spec fn all_agree(a: Dimension, b: Dimension, c: Dimension) -> bool {
    exists|size: nat| #[trigger]
        type_interfaces::admits(a, size) && type_interfaces::admits(b, size)
            && type_interfaces::admits(c, size)
}

proof fn lemma_all_agree(a: Dimension, b: Dimension, c: Dimension)
    ensures
        all_agree(a, b, c) <==> type_interfaces::agree(a, b) && type_interfaces::agree(b, c)
            && type_interfaces::agree(a, c),
{
    type_interfaces::lemma_agree(a, b);
    type_interfaces::lemma_agree(b, c);
    type_interfaces::lemma_agree(a, c);
    let size: nat = match (a, b, c) {
        (Dimension::Static(n), _, _) => n as nat,
        (_, Dimension::Static(n), _) => n as nat,
        (_, _, Dimension::Static(n)) => n as nat,
        _ => 0,
    };
    if type_interfaces::agree(a, b) && type_interfaces::agree(b, c) && type_interfaces::agree(a, c) {
        assert(type_interfaces::admits(a, size));
    }
    if all_agree(a, b, c) {
        let n = choose|n: nat| #[trigger]
            type_interfaces::admits(a, n) && type_interfaces::admits(b, n)
                && type_interfaces::admits(c, n);
        assert(type_interfaces::admits(b, n));
    }
}

/// The operands and the result of a product have sizes M by K, K by N, M by N and M by N.
pub open spec fn product_sizes(
    ctx: Context,
    op: MatMulOp,
    element_type: TypeHandle,
    m: nat,
    k: nat,
    n: nat,
) -> bool {
    &&& is_tensor(ctx, op.op.operands@[0].ty, element_type, seq![m, k])
    &&& is_tensor(ctx, op.op.operands@[1].ty, element_type, seq![k, n])
    &&& is_tensor(ctx, op.op.operands@[2].ty, element_type, seq![m, n])
    &&& is_tensor(ctx, op.op.result_types@[0], element_type, seq![m, n])
}

/// The type is one of matrices.
pub open spec fn is_matrix(ctx: Context, ty: TypeHandle) -> bool {
    ctx.as_tensor(ty) matches Some(tensor) && tensor.shape.len() == 2
}

/// A product is valid exactly if there are an element type and M, K and N with which the types
/// of the operands and of the result all agree.
pub proof fn law_mat_mul_verifies(ctx: Context, op: MatMulOp)
    requires
        op.wf(ctx),
    ensures
        op.verdict(ctx) is Ok <==> exists|element_type: TypeHandle, m: nat, k: nat, n: nat|
            #[trigger] product_sizes(ctx, op, element_type, m, k, n),
{
    if op.verdict(ctx) is Ok {
        let lhs = ctx.as_tensor(op.op.operands@[0].ty)->Some_0;
        let rhs = ctx.as_tensor(op.op.operands@[1].ty)->Some_0;
        let accum = ctx.as_tensor(op.op.operands@[2].ty)->Some_0;
        let result = ctx.as_tensor(op.op.result_types@[0])->Some_0;
        type_interfaces::lemma_agree(lhs.shape[1], rhs.shape[0]);
        type_interfaces::lemma_agree(lhs.shape[0], accum.shape[0]);
        type_interfaces::lemma_agree(accum.shape[0], result.shape[0]);
        type_interfaces::lemma_agree(lhs.shape[0], result.shape[0]);
        type_interfaces::lemma_agree(rhs.shape[1], accum.shape[1]);
        type_interfaces::lemma_agree(accum.shape[1], result.shape[1]);
        type_interfaces::lemma_agree(rhs.shape[1], result.shape[1]);
        lemma_all_agree(lhs.shape[0], accum.shape[0], result.shape[0]);
        lemma_all_agree(rhs.shape[1], accum.shape[1], result.shape[1]);
        let m = choose|size: nat| #[trigger]
            type_interfaces::admits(lhs.shape[0], size) && type_interfaces::admits(
                accum.shape[0],
                size,
            ) && type_interfaces::admits(result.shape[0], size);
        let n = choose|size: nat| #[trigger]
            type_interfaces::admits(rhs.shape[1], size) && type_interfaces::admits(
                accum.shape[1],
                size,
            ) && type_interfaces::admits(result.shape[1], size);
        let k = choose|size: nat| #[trigger]
            type_interfaces::admits(lhs.shape[1], size) && type_interfaces::admits(
                rhs.shape[0],
                size,
            );
        assert(product_sizes(ctx, op, lhs.element_type, m, k, n));
    }
    if exists|element_type: TypeHandle, m: nat, k: nat, n: nat| #[trigger]
        product_sizes(ctx, op, element_type, m, k, n) {
        let (element_type, m, k, n) = choose|element_type: TypeHandle, m: nat, k: nat, n: nat|
            #[trigger] product_sizes(ctx, op, element_type, m, k, n);
        let lhs = ctx.as_tensor(op.op.operands@[0].ty)->Some_0;
        let rhs = ctx.as_tensor(op.op.operands@[1].ty)->Some_0;
        let accum = ctx.as_tensor(op.op.operands@[2].ty)->Some_0;
        let result = ctx.as_tensor(op.op.result_types@[0])->Some_0;
        assert(type_interfaces::admits(lhs.shape[0], m));
        assert(type_interfaces::admits(lhs.shape[1], k));
        assert(type_interfaces::admits(rhs.shape[0], k));
        assert(type_interfaces::admits(rhs.shape[1], n));
        assert(type_interfaces::admits(accum.shape[0], m));
        assert(type_interfaces::admits(accum.shape[1], n));
        assert(type_interfaces::admits(result.shape[0], m));
        assert(type_interfaces::admits(result.shape[1], n));
    }
}

/// What is wrong with a product that is not valid: first that operands, or the result, are no
/// matrices, then that their elements differ, then that K differs, and last that M or N does.
/// The extents that are reported are static, stand in the types, and differ.
pub proof fn law_mat_mul_errors(ctx: Context, op: MatMulOp)
    requires
        op.wf(ctx),
    ensures
        ({
            let lhs = ctx.as_tensor(op.op.operands@[0].ty);
            let rhs = ctx.as_tensor(op.op.operands@[1].ty);
            let accum = ctx.as_tensor(op.op.operands@[2].ty);
            let result = ctx.as_tensor(op.op.result_types@[0]);
            let operands_match = is_matrix(ctx, op.op.operands@[0].ty) && is_matrix(
                ctx,
                op.op.operands@[1].ty,
            ) && is_matrix(ctx, op.op.operands@[2].ty);
            let matrices = operands_match && is_matrix(ctx, op.op.result_types@[0]);
            let alike = lhs->0.element_type == rhs->0.element_type && lhs->0.element_type
                == accum->0.element_type && lhs->0.element_type == result->0.element_type;
            op.verdict(ctx) matches Err(error) ==> match error {
                MatMulOpVerifyErr::OperandNot2DTensor => !operands_match,
                MatMulOpVerifyErr::ResultNot2DTensor => lhs is Some && rhs is Some && accum is Some
                    && !is_matrix(ctx, op.op.result_types@[0]),
                MatMulOpVerifyErr::ElementTypeMismatch => matrices && !alike,
                MatMulOpVerifyErr::InnerDimMismatch { lhs_k, rhs_k } => matrices && alike && lhs_k
                    != rhs_k && lhs->0.shape[1] == Dimension::Static(lhs_k) && rhs->0.shape[0]
                    == Dimension::Static(rhs_k),
                MatMulOpVerifyErr::ResultDimMismatch { dim, result_d, expected } => {
                    &&& matrices && alike && type_interfaces::agree(
                        lhs->0.shape[1],
                        rhs->0.shape[0],
                    )
                    &&& dim < 2 && result_d != expected
                    &&& accum->0.shape[dim as int] == Dimension::Static(result_d)
                        || result->0.shape[dim as int] == Dimension::Static(result_d)
                    &&& accum->0.shape[dim as int] == Dimension::Static(expected) || (if dim == 0 {
                        lhs->0.shape[0]
                    } else {
                        rhs->0.shape[1]
                    }) == Dimension::Static(expected)
                },
            }
        }),
{
    if let (Some(lhs), Some(rhs)) = (
        ctx.as_tensor(op.op.operands@[0].ty),
        ctx.as_tensor(op.op.operands@[1].ty),
    ) {
        type_interfaces::lemma_agree(lhs.shape[1], rhs.shape[0]);
    }
}

/// The batches agree in the dimensions of the batch and in M, K and N, as far as they are
/// compared: the left factor with the others in the dimensions of the batch, both factors with
/// each other and with the accumulator, and the accumulator with the result.
pub open spec fn batches_agree(
    lhs: Seq<Dimension>,
    rhs: Seq<Dimension>,
    accum: Seq<Dimension>,
    result: Seq<Dimension>,
) -> bool {
    let rank = lhs.len() as int;
    &&& forall|i: int|
        0 <= i < rank - 2 ==> type_interfaces::agree(#[trigger] lhs[i], rhs[i])
            && type_interfaces::agree(lhs[i], accum[i]) && type_interfaces::agree(
            lhs[i],
            result[i],
        )
    &&& type_interfaces::agree(lhs[rank - 1], rhs[rank - 2])
    &&& type_interfaces::agree(lhs[rank - 2], accum[rank - 2])
    &&& type_interfaces::agree(rhs[rank - 1], accum[rank - 1])
    &&& type_interfaces::agree(accum[rank - 2], result[rank - 2])
    &&& type_interfaces::agree(accum[rank - 1], result[rank - 1])
}

/// The operands and the result of a product of batches have the sizes of the batch followed by
/// M by K, K by N, M by N and M by N.
pub open spec fn batch_product_sizes(
    ctx: Context,
    op: BatchMatMulOp,
    element_type: TypeHandle,
    batch: Seq<nat>,
    m: nat,
    k: nat,
    n: nat,
) -> bool {
    &&& is_tensor(ctx, op.op.operands@[0].ty, element_type, batch + seq![m, k])
    &&& is_tensor(ctx, op.op.operands@[1].ty, element_type, batch + seq![k, n])
    &&& is_tensor(ctx, op.op.operands@[2].ty, element_type, batch + seq![m, n])
    &&& is_tensor(ctx, op.op.result_types@[0], element_type, batch + seq![m, n])
}

/// The types are those of tensors of one rank, at least two, and one element type.
pub open spec fn are_batches(ctx: Context, op: BatchMatMulOp) -> bool {
    let lhs = ctx.as_tensor(op.op.operands@[0].ty);
    let rhs = ctx.as_tensor(op.op.operands@[1].ty);
    let accum = ctx.as_tensor(op.op.operands@[2].ty);
    let result = ctx.as_tensor(op.op.result_types@[0]);
    &&& lhs is Some && rhs is Some && accum is Some && result is Some
    &&& lhs->0.shape.len() >= 2
    &&& rhs->0.shape.len() == lhs->0.shape.len()
    &&& accum->0.shape.len() == lhs->0.shape.len()
    &&& result->0.shape.len() == lhs->0.shape.len()
    &&& rhs->0.element_type == lhs->0.element_type
    &&& accum->0.element_type == lhs->0.element_type
    &&& result->0.element_type == lhs->0.element_type
}

/// A product of batches is valid exactly if its types are those of tensors of one rank, at
/// least two, and of one element type, that agree in what is compared.
pub proof fn law_batch_mat_mul_verifies(ctx: Context, op: BatchMatMulOp)
    requires
        op.wf(ctx),
    ensures
        op.verdict(ctx) is Ok <==> are_batches(ctx, op) && batches_agree(
            ctx.as_tensor(op.op.operands@[0].ty)->0.shape,
            ctx.as_tensor(op.op.operands@[1].ty)->0.shape,
            ctx.as_tensor(op.op.operands@[2].ty)->0.shape,
            ctx.as_tensor(op.op.result_types@[0])->0.shape,
        ),
{
    if are_batches(ctx, op) {
        let lhs = ctx.as_tensor(op.op.operands@[0].ty)->0.shape;
        let rhs = ctx.as_tensor(op.op.operands@[1].ty)->0.shape;
        let accum = ctx.as_tensor(op.op.operands@[2].ty)->0.shape;
        let result = ctx.as_tensor(op.op.result_types@[0])->0.shape;
        let rank = lhs.len() as int;
        let wrong = ops::batch_mismatch_at(lhs, rhs, accum, result);
        search::lemma_first_where((rank - 2) as nat, wrong);
        assert forall|i: int| 0 <= i < rank - 2 implies (wrong(i) <==> !(type_interfaces::agree(
            #[trigger] lhs[i],
            rhs[i],
        ) && type_interfaces::agree(lhs[i], accum[i]) && type_interfaces::agree(
            lhs[i],
            result[i],
        ))) by {
            type_interfaces::lemma_agree(lhs[i], rhs[i]);
            type_interfaces::lemma_agree(lhs[i], accum[i]);
            type_interfaces::lemma_agree(lhs[i], result[i]);
        }
        type_interfaces::lemma_agree(lhs[rank - 1], rhs[rank - 2]);
        type_interfaces::lemma_agree(lhs[rank - 2], accum[rank - 2]);
        type_interfaces::lemma_agree(rhs[rank - 1], accum[rank - 1]);
        type_interfaces::lemma_agree(accum[rank - 2], result[rank - 2]);
        type_interfaces::lemma_agree(accum[rank - 1], result[rank - 1]);
    }
}

/// Where there are sizes of the batch, M, K and N with which all types agree, the product is
/// valid. Where it is, and the left factor and the accumulator are static, there are such sizes.
pub proof fn law_batch_mat_mul_sizes(ctx: Context, op: BatchMatMulOp)
    requires
        op.wf(ctx),
    ensures
        (exists|element_type: TypeHandle, batch: Seq<nat>, m: nat, k: nat, n: nat| #[trigger]
            batch_product_sizes(ctx, op, element_type, batch, m, k, n)) ==> op.verdict(ctx) is Ok,
        op.verdict(ctx) is Ok && type_interfaces::fully_static(
            ctx.as_tensor(op.op.operands@[0].ty)->0.shape,
        ) && type_interfaces::fully_static(ctx.as_tensor(op.op.operands@[2].ty)->0.shape)
            ==> exists|element_type: TypeHandle, batch: Seq<nat>, m: nat, k: nat, n: nat|
            #[trigger] batch_product_sizes(ctx, op, element_type, batch, m, k, n),
{
    law_batch_mat_mul_verifies(ctx, op);
    let lhs = ctx.as_tensor(op.op.operands@[0].ty)->0.shape;
    let rhs = ctx.as_tensor(op.op.operands@[1].ty)->0.shape;
    let accum = ctx.as_tensor(op.op.operands@[2].ty)->0.shape;
    let result = ctx.as_tensor(op.op.result_types@[0])->0.shape;
    let rank = lhs.len() as int;
    if exists|element_type: TypeHandle, batch: Seq<nat>, m: nat, k: nat, n: nat| #[trigger]
        batch_product_sizes(ctx, op, element_type, batch, m, k, n) {
        let (element_type, batch, m, k, n) = choose|
            element_type: TypeHandle,
            batch: Seq<nat>,
            m: nat,
            k: nat,
            n: nat,
        | #[trigger]
            batch_product_sizes(ctx, op, element_type, batch, m, k, n);
        assert(batch.len() == rank - 2);
        let mk = batch + seq![m, k];
        let kn = batch + seq![k, n];
        let mn = batch + seq![m, n];
        assert forall|i: int| 0 <= i < rank - 2 implies type_interfaces::agree(
            #[trigger] lhs[i],
            rhs[i],
        ) && type_interfaces::agree(lhs[i], accum[i]) && type_interfaces::agree(
            lhs[i],
            result[i],
        ) by {
            assert(mk[i] == batch[i] && kn[i] == batch[i] && mn[i] == batch[i]);
            assert(type_interfaces::admits(lhs[i], batch[i]));
            assert(type_interfaces::admits(rhs[i], batch[i]));
            assert(type_interfaces::admits(accum[i], batch[i]));
            assert(type_interfaces::admits(result[i], batch[i]));
        }
        assert(mk[rank - 2] == m && mk[rank - 1] == k);
        assert(kn[rank - 2] == k && kn[rank - 1] == n);
        assert(mn[rank - 2] == m && mn[rank - 1] == n);
        assert(type_interfaces::admits(lhs[rank - 2], m));
        assert(type_interfaces::admits(lhs[rank - 1], k));
        assert(type_interfaces::admits(rhs[rank - 2], k));
        assert(type_interfaces::admits(rhs[rank - 1], n));
        assert(type_interfaces::admits(accum[rank - 2], m));
        assert(type_interfaces::admits(accum[rank - 1], n));
        assert(type_interfaces::admits(result[rank - 2], m));
        assert(type_interfaces::admits(result[rank - 1], n));
    }
    if op.verdict(ctx) is Ok && type_interfaces::fully_static(lhs)
        && type_interfaces::fully_static(accum) {
        let element_type = ctx.as_tensor(op.op.operands@[0].ty)->0.element_type;
        let sizes = type_interfaces::static_sizes(lhs);
        let batch = sizes.take(rank - 2);
        let m = sizes[rank - 2];
        let k = sizes[rank - 1];
        let n = type_interfaces::static_sizes(accum)[rank - 1];
        let mk = batch + seq![m, k];
        let kn = batch + seq![k, n];
        let mn = batch + seq![m, n];
        assert forall|i: int| 0 <= i < rank implies type_interfaces::admits(
            #[trigger] lhs[i],
            mk[i],
        ) && type_interfaces::admits(rhs[i], kn[i]) && type_interfaces::admits(accum[i], mn[i])
            && type_interfaces::admits(result[i], mn[i]) by {
            assert(lhs[i] is Static);
            assert(accum[i] is Static);
            type_interfaces::lemma_agree(lhs[i], rhs[i]);
            type_interfaces::lemma_agree(lhs[i], accum[i]);
            type_interfaces::lemma_agree(lhs[i], result[i]);
            type_interfaces::lemma_agree(lhs[rank - 1], rhs[rank - 2]);
            type_interfaces::lemma_agree(rhs[rank - 1], accum[rank - 1]);
            type_interfaces::lemma_agree(accum[i], result[i]);
        }
        assert forall|i: int| 0 <= i < rank implies type_interfaces::admits(
            #[trigger] rhs[i],
            kn[i],
        ) by {
            assert(type_interfaces::admits(lhs[i], mk[i]));
        }
        assert forall|i: int| 0 <= i < rank implies type_interfaces::admits(
            #[trigger] accum[i],
            mn[i],
        ) by {
            assert(type_interfaces::admits(lhs[i], mk[i]));
        }
        assert forall|i: int| 0 <= i < rank implies type_interfaces::admits(
            #[trigger] result[i],
            mn[i],
        ) by {
            assert(type_interfaces::admits(lhs[i], mk[i]));
        }
        assert(batch_product_sizes(ctx, op, element_type, batch, m, k, n));
    }
}

/// What is wrong with a product of batches that is not valid. The extents that are reported are
/// static, stand in the types, and differ; the dimension is the one in which they stand.
pub proof fn law_batch_mat_mul_errors(ctx: Context, op: BatchMatMulOp)
    requires
        op.wf(ctx),
        op.op.operands@.len() == 3,
        ctx.as_tensor(op.op.operands@[0].ty) matches Some(lhs) ==> lhs.shape.len() <= usize::MAX,
    ensures
        ({
            let lhs = ctx.as_tensor(op.op.operands@[0].ty);
            let rhs = ctx.as_tensor(op.op.operands@[1].ty);
            let accum = ctx.as_tensor(op.op.operands@[2].ty);
            let result = ctx.as_tensor(op.op.result_types@[0]);
            let rank = lhs->0.shape.len() as int;
            op.verdict(ctx) matches Err(error) ==> match error {
                BatchMatMulOpVerifyErr::InvalidRank => lhs is None || rhs is None || accum is None
                    || result is None || rank < 2 || rhs->0.shape.len() < 2
                    || accum->0.shape.len() < 2 || result->0.shape.len() != rank,
                BatchMatMulOpVerifyErr::OperandRankMismatch => rank >= 2 && (rhs->0.shape.len()
                    != rank || accum->0.shape.len() != rank),
                BatchMatMulOpVerifyErr::ElementTypeMismatch => result->0.shape.len() == rank && !(
                lhs->0.element_type == rhs->0.element_type && lhs->0.element_type
                    == accum->0.element_type && lhs->0.element_type == result->0.element_type),
                BatchMatMulOpVerifyErr::BatchDimMismatch { dim, lhs_d, rhs_d } => are_batches(
                    ctx,
                    op,
                ) && dim < rank - 2 && lhs_d != rhs_d && lhs->0.shape[dim as int]
                    == Dimension::Static(lhs_d) && rhs->0.shape[dim as int] == Dimension::Static(
                    rhs_d,
                ),
                BatchMatMulOpVerifyErr::InnerDimMismatch { lhs_k, rhs_k } => are_batches(ctx, op)
                    && lhs_k != rhs_k && lhs->0.shape[rank - 1] == Dimension::Static(lhs_k)
                    && rhs->0.shape[rank - 2] == Dimension::Static(rhs_k),
                BatchMatMulOpVerifyErr::ResultDimMismatch { dim, result_d, expected } => {
                    &&& are_batches(ctx, op)
                    &&& dim < rank && result_d != expected
                    &&& accum->0.shape[dim as int] == Dimension::Static(result_d)
                        || result->0.shape[dim as int] == Dimension::Static(result_d)
                    &&& accum->0.shape[dim as int] == Dimension::Static(expected) || (if dim
                        == rank - 1 {
                        rhs->0.shape[rank - 1]
                    } else {
                        lhs->0.shape[dim as int]
                    }) == Dimension::Static(expected)
                },
            }
        }),
{
    if are_batches(ctx, op) {
        let lhs = ctx.as_tensor(op.op.operands@[0].ty)->0.shape;
        let rhs = ctx.as_tensor(op.op.operands@[1].ty)->0.shape;
        let accum = ctx.as_tensor(op.op.operands@[2].ty)->0.shape;
        let result = ctx.as_tensor(op.op.result_types@[0])->0.shape;
        let wrong = ops::batch_mismatch_at(lhs, rhs, accum, result);
        search::lemma_first_where((lhs.len() - 2) as nat, wrong);
    }
}

/// A tensor is made from an index for each dynamic dimension, and from no others.
pub proof fn law_generate_verifies(ctx: Context, op: GenerateOp)
    requires
        op.wf(ctx),
    ensures
        ({
            let shape = ctx.as_tensor(op.op.result_types@[0])->0.shape;
            let expected = type_interfaces::dynamic_only(shape).len();
            &&& op.verdict(ctx) is Ok <==> op.op.operands@.len() == expected
            &&& op.verdict(ctx) matches Err(
                GenerateOpVerifyErr::NumOperandsMismatch { expected: e, got },
            ) ==> e == expected as usize && got == op.op.operands@.len() as usize
        }),
{
    type_interfaces::law_num_dynamic(ctx.as_tensor(op.op.result_types@[0])->0.shape);
}

/// An element is taken from a tensor exactly if it is of the type of the elements, and there is
/// one index, of index type, for each dimension. The first operand that is no index is reported.
pub proof fn law_extract_verifies(ctx: Context, op: ExtractOp)
    requires
        op.wf(ctx),
        op.op.operands@.len() <= usize::MAX,
    ensures
        ({
            let tensor = ctx.as_tensor(op.op.operands@[0].ty)->0;
            let count = op.op.operands@.len() - 1;
            &&& op.verdict(ctx) is Ok <==> {
                &&& op.op.result_types@[0] == tensor.element_type
                &&& count == tensor.shape.len()
                &&& forall|i: int|
                    1 <= i <= count ==> ctx.get((#[trigger] op.op.operands@[i]).ty) is Index
            }
            &&& op.verdict(ctx) matches Err(error) ==> match error {
                ExtractOpVerifyErr::ResultTypeMismatch => op.op.result_types@[0]
                    != tensor.element_type,
                ExtractOpVerifyErr::NonIndexOperand { index } => {
                    &&& index < count && !(ctx.get(op.op.operands@[index + 1].ty) is Index)
                    &&& forall|i: int|
                        1 <= i <= index ==> ctx.get((#[trigger] op.op.operands@[i]).ty) is Index
                },
                ExtractOpVerifyErr::NumOperandsMismatch { expected, got } => expected
                    == tensor.shape.len() as usize && got == count && count != tensor.shape.len(),
            }
        }),
{
    let indices = op.op.operands@.skip(1);
    let wrong = ir::non_index_at(ctx, indices);
    search::lemma_first_where(indices.len(), wrong);
    assert forall|i: int| 1 <= i < op.op.operands@.len() implies (wrong(i - 1) <==> !(ctx.get(
        (#[trigger] op.op.operands@[i]).ty,
    ) is Index)) by {
        assert(indices[i - 1] == op.op.operands@[i]);
    }
    if let Some(k) = search::first_where(indices.len(), wrong) {
        assert(wrong(k));
        assert(op.op.operands@[k + 1] == indices[k]);
    }
}

/// A slice is taken exactly if source and result have one rank, and the slice is well-formed.
pub proof fn law_extract_slice_is_well_formed(ctx: Context, op: ExtractSliceOp)
    requires
        op.wf(ctx),
    ensures
        op.verdict(ctx) is Ok <==> {
            let rank = ctx.as_tensor(op.op.operands@[0].ty)->0.shape.len();
            &&& ctx.as_tensor(op.op.result_types@[0])->0.shape.len() == rank
            &&& op.slice_params matches Some(params) && slices::well_sliced(
                ctx,
                params,
                rank,
                op.op.operands@.skip(1),
            )
        },
{
    if let Some(params) = op.slice_params {
        slices::lemma_well_sliced(
            ctx,
            params,
            ctx.as_tensor(op.op.operands@[0].ty)->0.shape.len(),
            op.op.operands@.skip(1),
        );
    }
}

/// What a size of a slice says of the dimension.
pub open spec fn size_dim(size: SliceParamAttr) -> Dimension {
    match size {
        SliceParamAttr::Static(n) => Dimension::Static(n),
        SliceParamAttr::OperandIdx(_) => Dimension::Dynamic,
    }
}

/// A slice is inserted exactly if source and destination have one rank and element type, the
/// result is of the type of the destination, the slice is well-formed, and its sizes agree with
/// the dimensions of the source.
pub proof fn law_insert_slice_is_well_formed(ctx: Context, op: InsertSliceOp)
    requires
        op.wf(ctx),
    ensures
        op.verdict(ctx) is Ok <==> {
            let source = ctx.as_tensor(op.op.operands@[0].ty)->0;
            let destination = ctx.as_tensor(op.op.operands@[1].ty)->0;
            &&& destination.shape.len() == source.shape.len()
            &&& destination.element_type == source.element_type
            &&& ctx.as_tensor(op.op.result_types@[0]) == Some(destination)
            &&& op.slice_params matches Some(params) && slices::well_sliced(
                ctx,
                params,
                source.shape.len(),
                op.op.operands@.skip(2),
            ) && forall|i: int|
                0 <= i < source.shape.len() ==> type_interfaces::agree(
                    size_dim(params.sizes@[i]),
                    #[trigger] source.shape[i],
                )
        },
{
    let source = ctx.as_tensor(op.op.operands@[0].ty)->0;
    let rank = source.shape.len();
    if let Some(params) = op.slice_params {
        slices::lemma_well_sliced(ctx, params, rank, op.op.operands@.skip(2));
        let wrong = ops::size_mismatch_at(params.sizes@, source.shape);
        search::lemma_first_where(rank, wrong);
        assert forall|i: int| 0 <= i < rank implies (wrong(i) <==> !type_interfaces::agree(
            size_dim(params.sizes@[i]),
            #[trigger] source.shape[i],
        )) by {
            type_interfaces::lemma_agree(size_dim(params.sizes@[i]), source.shape[i]);
        }
    }
}

/// A tensor is given another shape exactly if the elements are of one type, there is one size, of
/// index type, for each dynamic dimension of the result, and sizes of the two shapes, where both
/// are static, make for as many elements.
pub proof fn law_reshape_verifies(ctx: Context, op: ReshapeOp)
    requires
        op.wf(ctx),
    ensures
        op.verdict(ctx) is Ok <==> {
            let result = ctx.as_tensor(op.op.result_types@[0])->0;
            &&& ctx.as_tensor(op.op.operands@[0].ty) matches Some(source) && source.element_type
                == result.element_type && (type_interfaces::fully_static(source.shape)
                && type_interfaces::fully_static(result.shape) ==> forall|
                before: Seq<nat>,
                after: Seq<nat>,
            | #[trigger]
                type_interfaces::has_sizes(source.shape, before)
                    && #[trigger] type_interfaces::has_sizes(result.shape, after)
                    ==> row_major::product(before) == row_major::product(after))
            &&& op.op.operands@.len() - 1 == type_interfaces::dynamic_only(result.shape).len()
            &&& forall|i: int|
                1 <= i < op.op.operands@.len() ==> ctx.get(
                    (#[trigger] op.op.operands@[i]).ty,
                ) is Index
        },
{
    let result = ctx.as_tensor(op.op.result_types@[0])->0;
    let dynamic = op.op.operands@.skip(1);
    type_interfaces::law_num_dynamic(result.shape);
    assert(ir::all_index(ctx, dynamic) <==> forall|i: int|
        1 <= i < op.op.operands@.len() ==> ctx.get((#[trigger] op.op.operands@[i]).ty) is Index) by {
        if ir::all_index(ctx, dynamic) {
            assert forall|i: int| 1 <= i < op.op.operands@.len() implies ctx.get(
                (#[trigger] op.op.operands@[i]).ty,
            ) is Index by {
                assert(dynamic[i - 1] == op.op.operands@[i]);
            }
        }
    }
    if let Some(source) = ctx.as_tensor(op.op.operands@[0].ty) {
        if type_interfaces::fully_static(source.shape) && type_interfaces::fully_static(
            result.shape,
        ) {
            let before = type_interfaces::static_sizes(source.shape);
            let after = type_interfaces::static_sizes(result.shape);
            type_interfaces::lemma_static_sizes(source.shape, before);
            type_interfaces::lemma_static_sizes(result.shape, after);
            assert forall|b: Seq<nat>, a: Seq<nat>| #[trigger]
                type_interfaces::has_sizes(source.shape, b)
                    && #[trigger] type_interfaces::has_sizes(result.shape, a) implies b == before
                && a == after by {
                type_interfaces::lemma_static_sizes(source.shape, b);
                type_interfaces::lemma_static_sizes(result.shape, a);
            }
        }
    }
}

/// What is wrong with an `extract_slice` that is not valid, and where.
pub proof fn law_extract_slice_errors(ctx: Context, op: ExtractSliceOp)
    requires
        op.wf(ctx),
        op.op.operands@.len() <= usize::MAX,
        op.slice_params matches Some(params) ==> params.steps@.len() <= usize::MAX,
    ensures
        ({
            let rank = ctx.as_tensor(op.op.operands@[0].ty)->0.shape.len();
            let params = op.slice_params->0;
            op.verdict(ctx) matches Err(error) ==> match error {
                ExtractSliceOpVerifyErr::ResultTypeMismatch => ctx.as_tensor(
                    op.op.result_types@[0],
                )->0.shape.len() != rank,
                ExtractSliceOpVerifyErr::MissingSliceParamsAttr => op.slice_params is None,
                ExtractSliceOpVerifyErr::NumOffsetsMismatch { expected, got } => expected == rank as usize && got
                    == params.offsets@.len() as usize && params.offsets@.len() != rank,
                ExtractSliceOpVerifyErr::NumSizesMismatch { expected, got } => expected == rank as usize && got
                    == params.sizes@.len() as usize && params.sizes@.len() != rank,
                ExtractSliceOpVerifyErr::NumStepsMismatch { expected, got } => expected == rank as usize && got
                    == params.steps@.len() as usize && params.steps@.len() != rank,
                ExtractSliceOpVerifyErr::InvalidStaticStep { dim } => {
                    &&& dim < rank && params.steps@[dim as int] == SliceParamAttr::Static(0)
                    &&& forall|i: int|
                        0 <= i < dim ==> #[trigger] params.steps@[i] != SliceParamAttr::Static(0)
                },
                ExtractSliceOpVerifyErr::NonIndexOperand { index, ty } => {
                    &&& 1 <= index < op.op.operands@.len()
                    &&& op.op.operands@[index as int].ty == ty && !(ctx.get(ty) is Index)
                    &&& forall|i: int|
                        1 <= i < index ==> ctx.get((#[trigger] op.op.operands@[i]).ty) is Index
                },
                ExtractSliceOpVerifyErr::NumDynamicOperandsMismatch { expected, got } => expected == (
                slices::operand_params(params.offsets@).len() + slices::operand_params(
                    params.sizes@,
                ).len() + slices::operand_params(params.steps@).len()) as usize && got == (
                op.op.operands@.len() - 1) as usize,
            }
        }),
{
    if let Some(params) = op.slice_params {
        let dynamic = op.op.operands@.skip(1);
        let zero = slices::zero_at(params.steps@);
        let other = ir::non_index_at(ctx, dynamic);
        slices::law_num_operand_params(params.offsets@);
        slices::law_num_operand_params(params.sizes@);
        slices::law_num_operand_params(params.steps@);
        search::lemma_first_where(params.steps@.len(), zero);
        search::lemma_first_where(dynamic.len(), other);
        if let Some(dim) = slices::first_zero_step(params.steps@) {
            assert forall|i: int| 0 <= i < dim implies #[trigger] params.steps@[i]
                != SliceParamAttr::Static(0) by {
                assert(!zero(i));
            }
        }
        if let Some(k) = search::first_where(dynamic.len(), other) {
            assert(other(k));
            assert(dynamic[k] == op.op.operands@[k + 1]);
            assert forall|i: int| 1 <= i < k + 1 implies ctx.get(
                (#[trigger] op.op.operands@[i]).ty,
            ) is Index by {
                assert(!other(i - 1));
                assert(dynamic[i - 1] == op.op.operands@[i]);
            }
        }
    }
}

/// What is wrong with an `insert_slice` that is not valid, and where.
pub proof fn law_insert_slice_errors(ctx: Context, op: InsertSliceOp)
    requires
        op.wf(ctx),
        op.op.operands@.len() <= usize::MAX,
        op.slice_params matches Some(params) ==> params.steps@.len() <= usize::MAX
            && params.sizes@.len() <= usize::MAX,
    ensures
        ({
            let rank = ctx.as_tensor(op.op.operands@[0].ty)->0.shape.len();
            let params = op.slice_params->0;
            op.verdict(ctx) matches Err(error) ==> match error {
                InsertSliceOpVerifyErr::SourceDestinationRankMismatch => ctx.as_tensor(
                    op.op.operands@[1].ty,
                )->0.shape.len() != rank,
                InsertSliceOpVerifyErr::ElementTypeMismatch => ctx.as_tensor(
                    op.op.operands@[0].ty,
                )->0.element_type != ctx.as_tensor(op.op.operands@[1].ty)->0.element_type,
                InsertSliceOpVerifyErr::ResultTypeMismatch => ctx.as_tensor(op.op.result_types@[0])
                    != ctx.as_tensor(op.op.operands@[1].ty),
                InsertSliceOpVerifyErr::MissingSliceParamsAttr => op.slice_params is None,
                InsertSliceOpVerifyErr::NumOffsetsMismatch { expected, got } => expected == rank as usize && got
                    == params.offsets@.len() as usize && params.offsets@.len() != rank,
                InsertSliceOpVerifyErr::NumSizesMismatch { expected, got } => expected == rank as usize && got
                    == params.sizes@.len() as usize && params.sizes@.len() != rank,
                InsertSliceOpVerifyErr::NumStepsMismatch { expected, got } => expected == rank as usize && got
                    == params.steps@.len() as usize && params.steps@.len() != rank,
                InsertSliceOpVerifyErr::InvalidStaticStep { dim } => {
                    &&& dim < rank && params.steps@[dim as int] == SliceParamAttr::Static(0)
                    &&& forall|i: int|
                        0 <= i < dim ==> #[trigger] params.steps@[i] != SliceParamAttr::Static(0)
                },
                InsertSliceOpVerifyErr::NonIndexOperand { index, ty } => {
                    &&& 2 <= index < op.op.operands@.len()
                    &&& op.op.operands@[index as int].ty == ty && !(ctx.get(ty) is Index)
                    &&& forall|i: int|
                        2 <= i < index ==> ctx.get((#[trigger] op.op.operands@[i]).ty) is Index
                },
                InsertSliceOpVerifyErr::NumDynamicOperandsMismatch { expected, got } => expected == (
                slices::operand_params(params.offsets@).len() + slices::operand_params(
                    params.sizes@,
                ).len() + slices::operand_params(params.steps@).len()) as usize && got == (
                op.op.operands@.len() - 2) as usize,
                InsertSliceOpVerifyErr::StaticSizeSourceMismatch { dim, size, source_dim } => dim
                    < rank && size != source_dim && params.sizes@[dim as int]
                    == SliceParamAttr::Static(size) && ctx.as_tensor(
                    op.op.operands@[0].ty,
                )->0.shape[dim as int] == Dimension::Static(source_dim),
            }
        }),
{
    if let Some(params) = op.slice_params {
        let dynamic = op.op.operands@.skip(2);
        let zero = slices::zero_at(params.steps@);
        let other = ir::non_index_at(ctx, dynamic);
        slices::law_num_operand_params(params.offsets@);
        slices::law_num_operand_params(params.sizes@);
        slices::law_num_operand_params(params.steps@);
        search::lemma_first_where(params.steps@.len(), zero);
        search::lemma_first_where(dynamic.len(), other);
        if let Some(dim) = slices::first_zero_step(params.steps@) {
            assert forall|i: int| 0 <= i < dim implies #[trigger] params.steps@[i]
                != SliceParamAttr::Static(0) by {
                assert(!zero(i));
            }
        }
        if let Some(k) = search::first_where(dynamic.len(), other) {
            assert(other(k));
            assert(dynamic[k] == op.op.operands@[k + 2]);
            assert forall|i: int| 2 <= i < k + 2 implies ctx.get(
                (#[trigger] op.op.operands@[i]).ty,
            ) is Index by {
                assert(!other(i - 2));
                assert(dynamic[i - 2] == op.op.operands@[i]);
            }
        }
        let source = ctx.as_tensor(op.op.operands@[0].ty)->0;
        search::lemma_first_where(
            source.shape.len(),
            ops::size_mismatch_at(params.sizes@, source.shape),
        );
    }
}

/// What is wrong with a reshape that is not valid.
pub proof fn law_reshape_errors(ctx: Context, op: ReshapeOp)
    requires
        op.wf(ctx),
    ensures
        ({
            let result = ctx.as_tensor(op.op.result_types@[0])->0;
            let source = ctx.as_tensor(op.op.operands@[0].ty);
            op.verdict(ctx) matches Err(error) ==> match error {
                ReshapeOpVerifyErr::SourceNotRankedTensor => source is None,
                ReshapeOpVerifyErr::ElementTypeMismatch => source is Some && source->0.element_type
                    != result.element_type,
                ReshapeOpVerifyErr::DynDimCountMismatch { expected, got } => expected
                    == type_interfaces::dynamic_only(result.shape).len() as usize && got == (
                op.op.operands@.len() - 1) as usize && type_interfaces::dynamic_only(
                    result.shape,
                ).len() != op.op.operands@.len() - 1,
                ReshapeOpVerifyErr::DynDimNotIndex => exists|i: int|
                    1 <= i < op.op.operands@.len() && !(ctx.get(
                        (#[trigger] op.op.operands@[i]).ty,
                    ) is Index),
                ReshapeOpVerifyErr::ElementCountMismatch { src_count, result_count } => exists|
                    before: Seq<nat>,
                    after: Seq<nat>,
                | #[trigger]
                    type_interfaces::has_sizes(source->0.shape, before)
                        && #[trigger] type_interfaces::has_sizes(result.shape, after)
                        && row_major::product(before) as usize == src_count && row_major::product(
                        after,
                    ) as usize == result_count && row_major::product(before)
                        != row_major::product(after),
            }
        }),
{
    let result = ctx.as_tensor(op.op.result_types@[0])->0;
    let dynamic = op.op.operands@.skip(1);
    type_interfaces::law_num_dynamic(result.shape);
    if !ir::all_index(ctx, dynamic) {
        let k = choose|k: int|
            0 <= k < dynamic.len() && !(ctx.get((#[trigger] dynamic[k]).ty) is Index);
        assert(op.op.operands@[k + 1] == dynamic[k]);
    }
    if let Some(source) = ctx.as_tensor(op.op.operands@[0].ty) {
        if type_interfaces::fully_static(source.shape) && type_interfaces::fully_static(
            result.shape,
        ) {
            let before = type_interfaces::static_sizes(source.shape);
            let after = type_interfaces::static_sizes(result.shape);
            type_interfaces::lemma_static_sizes(source.shape, before);
            type_interfaces::lemma_static_sizes(result.shape, after);
            assert(type_interfaces::has_sizes(source.shape, before));
            assert(type_interfaces::has_sizes(result.shape, after));
        }
    }
}

} // verus!

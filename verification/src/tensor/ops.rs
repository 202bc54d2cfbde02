//! Operations of the tensor dialect.

use crate::ir;
use crate::ir::{Context, Operation, TypeHandle, TypeObj, Value};
use crate::memref::attributes::{SliceParamAttr, SliceParamsAttr};
use crate::memref::ops::YieldOp;
use crate::memref::slices;
use crate::memref::slices::SliceParam;
use crate::memref::type_interfaces;
use crate::memref::type_interfaces::{Dimension, ShapedType};
use crate::search;
use crate::tensor::types::RankedTensorType;
use vstd::prelude::*;

verus! {

/// Makes a tensor of the values that a region yields for each index.
///
/// Takes one operand of index type for each dynamic dimension of the result. The region
/// takes one index per dimension and yields a value of the element type.
#[derive(Debug)]
pub struct GenerateOp {
    pub op: Operation,
    /// The indices that the region takes.
    pub arguments: Vec<Value>,
    /// What the region yields.
    pub yield_op: YieldOp,
}

#[derive(Clone, Copy, Debug, PartialEq, Eq, Structural)]
pub enum GenerateOpVerifyErr {
    NumOperandsMismatch { expected: usize, got: usize },
}

impl GenerateOp {
    /// One result, which is a ranked tensor.
    pub open spec fn wf(&self, ctx: Context) -> bool {
        &&& self.op.typed_in(ctx)
        &&& self.op.result_types@.len() == 1
        &&& ctx.as_tensor(self.op.result_types@[0]) is Some
    }

    /// Makes a tensor of what `body_builder` yields for the indices it is given.
    ///
    /// The indices are new values, numbered from `first_index` on.
    pub fn new<F: FnOnce(Vec<Value>) -> Value>(
        ctx: &mut Context,
        dynamic_dimensions: Vec<Value>,
        result_type: TypeHandle,
        first_index: usize,
        body_builder: F,
    ) -> (r: Self)
        requires
            old(ctx).wf(),
            old(ctx).has(result_type),
            old(ctx).as_tensor(result_type) is Some,
            first_index + old(ctx).as_tensor(result_type)->Some_0.shape.len() <= usize::MAX,
            forall|indices: Vec<Value>|
                indices@.len() == old(ctx).as_tensor(result_type)->Some_0.shape.len()
                    ==> #[trigger] call_requires(body_builder, (indices,)),
        ensures
            final(ctx).wf(),
            final(ctx).extends(*old(ctx)),
            r.op.operands@ == dynamic_dimensions@,
            r.op.result_types@ == seq![result_type],
            exists|index_ty: TypeHandle|
                final(ctx).has(index_ty) && final(ctx).get(index_ty) is Index && r.arguments@
                    == #[trigger] ir::block_arguments(
                    first_index,
                    index_ty,
                    old(ctx).as_tensor(result_type)->Some_0.shape.len(),
                ),
            r.yield_op.op.operands@.len() == 1,
            exists|indices: Vec<Value>|
                indices@ == r.arguments@ && #[trigger] call_ensures(
                    body_builder,
                    (indices,),
                    r.yield_op.op.operands@[0],
                ),
    {
        let rank: usize = ctx.ranked_tensor(result_type).unwrap().rank();
        let index_ty = ctx.intern(TypeObj::Index);
        let arguments: Vec<Value> = ir::make_block_arguments(first_index, index_ty, rank);
        let indices: Vec<Value> = ir::copy_values(arguments.as_slice());
        let ghost given = indices;
        let yielded: Value = body_builder(indices);
        let yield_op = YieldOp::new(yielded);
        let r = GenerateOp {
            op: Operation { operands: dynamic_dimensions, result_types: vec![result_type] },
            arguments,
            yield_op,
        };
        assert(given@ == r.arguments@);
        assert(call_ensures(body_builder, (given,), r.yield_op.op.operands@[0]));
        r
    }

    /// The shape of the tensor that is made.
    pub fn get_generated_shape<'a>(&self, ctx: &'a Context) -> (r: &'a Vec<Dimension>)
        requires
            self.wf(*ctx),
        ensures
            r@ == ctx.as_tensor(self.op.result_types@[0])->Some_0.shape,
    {
        assert(ctx.has(self.op.result_types@[0]));
        ctx.ranked_tensor(self.op.result_types[0]).unwrap().shape()
    }

    /// The size of each dynamic dimension.
    pub fn dynamic_dimensions(&self) -> (r: Vec<Value>)
        ensures
            r@ == self.op.operands@,
    {
        ir::copy_values(self.op.operands.as_slice())
    }

    pub open spec fn verdict(&self, ctx: Context) -> Result<(), GenerateOpVerifyErr> {
        let expected = type_interfaces::num_dynamic(
            ctx.as_tensor(self.op.result_types@[0])->Some_0.shape,
        );
        let got = self.op.operands@.len();
        if got != expected {
            Err(
                GenerateOpVerifyErr::NumOperandsMismatch {
                    expected: expected as usize,
                    got: got as usize,
                },
            )
        } else {
            Ok(())
        }
    }

    /// There is one operand for each dynamic dimension.
    pub fn verify(&self, ctx: &Context) -> (r: Result<(), GenerateOpVerifyErr>)
        requires
            self.wf(*ctx),
        ensures
            r == self.verdict(*ctx),
    {
        let expected: usize = type_interfaces::count_dynamic(self.get_generated_shape(ctx));
        let got: usize = self.op.operands.len();
        if got != expected {
            return Err(GenerateOpVerifyErr::NumOperandsMismatch { expected, got });
        }
        Ok(())
    }
}

/// Takes an element out of a tensor, at one index per dimension.
#[derive(Debug)]
pub struct ExtractOp {
    pub op: Operation,
}

#[derive(Clone, Copy, Debug, PartialEq, Eq, Structural)]
pub enum ExtractOpVerifyErr {
    ResultTypeMismatch,
    NumOperandsMismatch { expected: usize, got: usize },
    NonIndexOperand { index: usize },
}

impl ExtractOp {
    /// A ranked tensor, any number of indices, and one result.
    pub open spec fn wf(&self, ctx: Context) -> bool {
        &&& self.op.typed_in(ctx)
        &&& self.op.operands@.len() >= 1
        &&& self.op.result_types@.len() == 1
        &&& ctx.as_tensor(self.op.operands@[0].ty) is Some
    }

    pub fn new(res_ty: TypeHandle, tensor: Value, indices: Vec<Value>) -> (r: Self)
        ensures
            r.op.operands@ == seq![tensor] + indices@,
            r.op.result_types@ == seq![res_ty],
    {
        let mut operands: Vec<Value> = vec![tensor];
        let mut rest: Vec<Value> = indices;
        operands.append(&mut rest);
        ExtractOp { op: Operation { operands, result_types: vec![res_ty] } }
    }

    /// The tensor to take from.
    pub fn get_tensor_operand(&self) -> (r: Value)
        requires
            self.op.operands@.len() >= 1,
        ensures
            r == self.op.operands@[0],
    {
        self.op.operands[0]
    }

    /// Where to take from.
    pub fn get_index_operands(&self) -> (r: Vec<Value>)
        requires
            self.op.operands@.len() >= 1,
        ensures
            r@ == self.op.operands@.skip(1),
    {
        ir::values_from(&self.op.operands, 1)
    }

    pub open spec fn verdict(&self, ctx: Context) -> Result<(), ExtractOpVerifyErr> {
        let tensor = ctx.as_tensor(self.op.operands@[0].ty)->Some_0;
        let indices = self.op.operands@.skip(1);
        if self.op.result_types@[0] != tensor.element_type {
            Err(ExtractOpVerifyErr::ResultTypeMismatch)
        } else if let Some(i) = search::first_where(indices.len(), ir::non_index_at(ctx, indices)) {
            Err(ExtractOpVerifyErr::NonIndexOperand { index: i as usize })
        } else if indices.len() != tensor.shape.len() {
            Err(
                ExtractOpVerifyErr::NumOperandsMismatch {
                    expected: tensor.shape.len() as usize,
                    got: indices.len() as usize,
                },
            )
        } else {
            Ok(())
        }
    }

    /// The result is of the element type, and there is one index per dimension.
    pub fn verify(&self, ctx: &Context) -> (r: Result<(), ExtractOpVerifyErr>)
        requires
            self.wf(*ctx),
        ensures
            r == self.verdict(*ctx),
    {
        let indices: Vec<Value> = self.get_index_operands();
        proof {
            assert(ctx.has_value(self.op.operands@[0]));
            assert forall|i: int| 0 <= i < indices@.len() implies ctx.has_value(
                #[trigger] indices@[i],
            ) by {
                assert(ctx.has_value(self.op.operands@[i + 1]));
            }
        }
        let tensor_ty = ctx.ranked_tensor(self.get_tensor_operand().ty).unwrap();
        if self.op.result_types[0] != tensor_ty.element_type {
            return Err(ExtractOpVerifyErr::ResultTypeMismatch);
        }
        if let Some(index) = ir::find_non_index(ctx, indices.as_slice()) {
            return Err(ExtractOpVerifyErr::NonIndexOperand { index });
        }
        let expected: usize = tensor_ty.rank();
        if indices.len() != expected {
            return Err(ExtractOpVerifyErr::NumOperandsMismatch { expected, got: indices.len() });
        }
        Ok(())
    }
}

/// Adds two tensors element by element. The result is of the type of the left operand.
#[derive(Debug)]
pub struct AddOp {
    pub op: Operation,
}

impl AddOp {
    pub fn new(lhs: Value, rhs: Value) -> (r: Self)
        ensures
            r.op.operands@ == seq![lhs, rhs],
            r.op.result_types@ == seq![lhs.ty],
    {
        AddOp { op: Operation { operands: vec![lhs, rhs], result_types: vec![lhs.ty] } }
    }
}

/// Subtracts two tensors element by element. The result is of the type of the left operand.
#[derive(Debug)]
pub struct SubOp {
    pub op: Operation,
}

impl SubOp {
    pub fn new(lhs: Value, rhs: Value) -> (r: Self)
        ensures
            r.op.operands@ == seq![lhs, rhs],
            r.op.result_types@ == seq![lhs.ty],
    {
        SubOp { op: Operation { operands: vec![lhs, rhs], result_types: vec![lhs.ty] } }
    }
}

/// Multiplies two tensors element by element. The result is of the type of the left operand.
#[derive(Debug)]
pub struct MulOp {
    pub op: Operation,
}

impl MulOp {
    pub fn new(lhs: Value, rhs: Value) -> (r: Self)
        ensures
            r.op.operands@ == seq![lhs, rhs],
            r.op.result_types@ == seq![lhs.ty],
    {
        MulOp { op: Operation { operands: vec![lhs, rhs], result_types: vec![lhs.ty] } }
    }
}

/// Divides two tensors element by element. The result is of the type of the left operand.
#[derive(Debug)]
pub struct DivOp {
    pub op: Operation,
}

impl DivOp {
    pub fn new(lhs: Value, rhs: Value) -> (r: Self)
        ensures
            r.op.operands@ == seq![lhs, rhs],
            r.op.result_types@ == seq![lhs.ty],
    {
        DivOp { op: Operation { operands: vec![lhs, rhs], result_types: vec![lhs.ty] } }
    }
}

/// Multiplies two matrices and adds a third one: `lhs * rhs + accum`, where `lhs` is M by K,
/// `rhs` is K by N, and `accum` and the result are M by N.
#[derive(Debug)]
pub struct MatMulOp {
    pub op: Operation,
}

#[derive(Clone, Copy, Debug, PartialEq, Eq, Structural)]
pub enum MatMulOpVerifyErr {
    OperandNot2DTensor,
    ResultNot2DTensor,
    InnerDimMismatch { lhs_k: usize, rhs_k: usize },
    ResultDimMismatch { dim: usize, result_d: usize, expected: usize },
    ElementTypeMismatch,
}

impl MatMulOp {
    /// Three operands and a result.
    pub open spec fn wf(&self, ctx: Context) -> bool {
        &&& self.op.typed_in(ctx)
        &&& self.op.operands@.len() == 3
        &&& self.op.result_types@.len() == 1
    }

    pub fn new(lhs: Value, rhs: Value, accum: Value) -> (r: Self)
        ensures
            r.op.operands@ == seq![lhs, rhs, accum],
            r.op.result_types@ == seq![accum.ty],
    {
        MatMulOp { op: Operation { operands: vec![lhs, rhs, accum], result_types: vec![accum.ty] } }
    }

    pub open spec fn verdict(&self, ctx: Context) -> Result<(), MatMulOpVerifyErr> {
        match (
            ctx.as_tensor(self.op.operands@[0].ty),
            ctx.as_tensor(self.op.operands@[1].ty),
            ctx.as_tensor(self.op.operands@[2].ty),
            ctx.as_tensor(self.op.result_types@[0]),
        ) {
            (Some(lhs), Some(rhs), Some(accum), Some(result)) => {
                if lhs.shape.len() != 2 || rhs.shape.len() != 2 || accum.shape.len() != 2 {
                    Err(MatMulOpVerifyErr::OperandNot2DTensor)
                } else if result.shape.len() != 2 {
                    Err(MatMulOpVerifyErr::ResultNot2DTensor)
                } else if rhs.element_type != lhs.element_type || accum.element_type
                    != lhs.element_type || result.element_type != lhs.element_type {
                    Err(MatMulOpVerifyErr::ElementTypeMismatch)
                } else if type_interfaces::static_mismatch(lhs.shape[1], rhs.shape[0]) {
    Err(MatMulOpVerifyErr::InnerDimMismatch { lhs_k: lhs.shape[1]->Static_0, rhs_k: rhs.shape[0]->Static_0 })
} else if type_interfaces::static_mismatch(lhs.shape[0], accum.shape[0]) {
    Err(MatMulOpVerifyErr::ResultDimMismatch { dim: (0) as usize, result_d: accum.shape[0]->Static_0, expected: lhs.shape[0]->Static_0 })
} else if type_interfaces::static_mismatch(rhs.shape[1], accum.shape[1]) {
    Err(MatMulOpVerifyErr::ResultDimMismatch { dim: (1) as usize, result_d: accum.shape[1]->Static_0, expected: rhs.shape[1]->Static_0 })
} else if type_interfaces::static_mismatch(accum.shape[0], result.shape[0]) {
    Err(MatMulOpVerifyErr::ResultDimMismatch { dim: (0) as usize, result_d: result.shape[0]->Static_0, expected: accum.shape[0]->Static_0 })
} else if type_interfaces::static_mismatch(accum.shape[1], result.shape[1]) {
    Err(MatMulOpVerifyErr::ResultDimMismatch { dim: (1) as usize, result_d: result.shape[1]->Static_0, expected: accum.shape[1]->Static_0 })
} else if type_interfaces::static_mismatch(lhs.shape[0], result.shape[0]) {
    Err(MatMulOpVerifyErr::ResultDimMismatch { dim: (0) as usize, result_d: result.shape[0]->Static_0, expected: lhs.shape[0]->Static_0 })
} else if type_interfaces::static_mismatch(rhs.shape[1], result.shape[1]) {
    Err(MatMulOpVerifyErr::ResultDimMismatch { dim: (1) as usize, result_d: result.shape[1]->Static_0, expected: rhs.shape[1]->Static_0 })
} else {
                    Ok(())
                }
            },
            (Some(_), Some(_), Some(_), None) => Err(MatMulOpVerifyErr::ResultNot2DTensor),
            _ => Err(MatMulOpVerifyErr::OperandNot2DTensor),
        }
    }

    /// The operands and the result are matrices of one element type whose dimensions fit
    /// together.
    pub fn verify(&self, ctx: &Context) -> (r: Result<(), MatMulOpVerifyErr>)
        requires
            self.wf(*ctx),
        ensures
            r == self.verdict(*ctx),
    {
        proof {
            assert(ctx.has_value(self.op.operands@[0]));
            assert(ctx.has_value(self.op.operands@[1]));
            assert(ctx.has_value(self.op.operands@[2]));
            assert(ctx.has(self.op.result_types@[0]));
        }
        let (lhs_ty, rhs_ty, accum_ty) = match (
            ctx.ranked_tensor(self.op.operands[0].ty),
            ctx.ranked_tensor(self.op.operands[1].ty),
            ctx.ranked_tensor(self.op.operands[2].ty),
        ) {
            (Some(lhs), Some(rhs), Some(accum)) => (lhs, rhs, accum),
            _ => {
                return Err(MatMulOpVerifyErr::OperandNot2DTensor);
            },
        };
        let result_ty = match ctx.ranked_tensor(self.op.result_types[0]) {
            Some(result) => result,
            None => {
                return Err(MatMulOpVerifyErr::ResultNot2DTensor);
            },
        };
        if lhs_ty.rank() != 2 || rhs_ty.rank() != 2 || accum_ty.rank() != 2 {
            return Err(MatMulOpVerifyErr::OperandNot2DTensor);
        }
        if result_ty.rank() != 2 {
            return Err(MatMulOpVerifyErr::ResultNot2DTensor);
        }
        if rhs_ty.element_type != lhs_ty.element_type || accum_ty.element_type
            != lhs_ty.element_type || result_ty.element_type != lhs_ty.element_type {
            return Err(MatMulOpVerifyErr::ElementTypeMismatch);
        }
        if let (Dimension::Static(x), Dimension::Static(y)) = (lhs_ty.shape[1], rhs_ty.shape[0]) {
            if x != y {
                return Err(MatMulOpVerifyErr::InnerDimMismatch { lhs_k: x, rhs_k: y });
            }
        }
        if let (Dimension::Static(x), Dimension::Static(y)) = (lhs_ty.shape[0], accum_ty.shape[0]) {
            if x != y {
                return Err(MatMulOpVerifyErr::ResultDimMismatch { dim: 0, result_d: y, expected: x });
            }
        }
        if let (Dimension::Static(x), Dimension::Static(y)) = (rhs_ty.shape[1], accum_ty.shape[1]) {
            if x != y {
                return Err(MatMulOpVerifyErr::ResultDimMismatch { dim: 1, result_d: y, expected: x });
            }
        }
        if let (Dimension::Static(x), Dimension::Static(y)) = (accum_ty.shape[0], result_ty.shape[0]) {
            if x != y {
                return Err(MatMulOpVerifyErr::ResultDimMismatch { dim: 0, result_d: y, expected: x });
            }
        }
        if let (Dimension::Static(x), Dimension::Static(y)) = (accum_ty.shape[1], result_ty.shape[1]) {
            if x != y {
                return Err(MatMulOpVerifyErr::ResultDimMismatch { dim: 1, result_d: y, expected: x });
            }
        }
        if let (Dimension::Static(x), Dimension::Static(y)) = (lhs_ty.shape[0], result_ty.shape[0]) {
            if x != y {
                return Err(MatMulOpVerifyErr::ResultDimMismatch { dim: 0, result_d: y, expected: x });
            }
        }
        if let (Dimension::Static(x), Dimension::Static(y)) = (rhs_ty.shape[1], result_ty.shape[1]) {
            if x != y {
                return Err(MatMulOpVerifyErr::ResultDimMismatch { dim: 1, result_d: y, expected: x });
            }
        }
        Ok(())
    }
}

/// Multiplies two batches of matrices and adds a third one: `lhs * rhs + accum` at each
/// batch index, where `lhs` is M by K, `rhs` is K by N, and `accum` and the result are M by N
/// in the last two dimensions.
#[derive(Debug)]
pub struct BatchMatMulOp {
    pub op: Operation,
}

#[derive(Clone, Copy, Debug, PartialEq, Eq, Structural)]
pub enum BatchMatMulOpVerifyErr {
    InvalidRank,
    OperandRankMismatch,
    ElementTypeMismatch,
    BatchDimMismatch { dim: usize, lhs_d: usize, rhs_d: usize },
    InnerDimMismatch { lhs_k: usize, rhs_k: usize },
    ResultDimMismatch { dim: usize, result_d: usize, expected: usize },
}

/// The batch dimension at each index differs between the operands or from the result.
pub open spec fn batch_mismatch_at(
    lhs: Seq<Dimension>,
    rhs: Seq<Dimension>,
    accum: Seq<Dimension>,
    result: Seq<Dimension>,
) -> spec_fn(int) -> bool {
    |i: int|
        type_interfaces::static_mismatch(lhs[i], rhs[i]) || type_interfaces::static_mismatch(
            lhs[i],
            accum[i],
        ) || type_interfaces::static_mismatch(lhs[i], result[i])
}

/// What is wrong with batch dimension `i`, where something is.
pub open spec fn batch_error(
    lhs: Dimension,
    rhs: Dimension,
    accum: Dimension,
    result: Dimension,
    i: int,
) -> BatchMatMulOpVerifyErr {
    if type_interfaces::static_mismatch(lhs, rhs) {
        BatchMatMulOpVerifyErr::BatchDimMismatch {
            dim: i as usize,
            lhs_d: lhs->Static_0,
            rhs_d: rhs->Static_0,
        }
    } else if type_interfaces::static_mismatch(lhs, accum) {
        BatchMatMulOpVerifyErr::ResultDimMismatch {
            dim: i as usize,
            result_d: accum->Static_0,
            expected: lhs->Static_0,
        }
    } else {
        BatchMatMulOpVerifyErr::ResultDimMismatch {
            dim: i as usize,
            result_d: result->Static_0,
            expected: lhs->Static_0,
        }
    }
}

impl BatchMatMulOp {
    /// Three operands and a result.
    pub open spec fn wf(&self, ctx: Context) -> bool {
        &&& self.op.typed_in(ctx)
        &&& self.op.operands@.len() == 3
        &&& self.op.result_types@.len() == 1
    }

    pub fn new(lhs: Value, rhs: Value, accum: Value) -> (r: Self)
        ensures
            r.op.operands@ == seq![lhs, rhs, accum],
            r.op.result_types@ == seq![accum.ty],
    {
        BatchMatMulOp {
            op: Operation { operands: vec![lhs, rhs, accum], result_types: vec![accum.ty] },
        }
    }

    pub open spec fn verdict(&self, ctx: Context) -> Result<(), BatchMatMulOpVerifyErr> {
        match (
            ctx.as_tensor(self.op.operands@[0].ty),
            ctx.as_tensor(self.op.operands@[1].ty),
            ctx.as_tensor(self.op.operands@[2].ty),
            ctx.as_tensor(self.op.result_types@[0]),
        ) {
            (Some(lhs), Some(rhs), Some(accum), Some(result)) => {
                let rank = lhs.shape.len();
                if rank < 2 || rhs.shape.len() < 2 || accum.shape.len() < 2 || result.shape.len()
                    < 2 {
                    Err(BatchMatMulOpVerifyErr::InvalidRank)
                } else if rhs.shape.len() != rank || accum.shape.len() != rank {
                    Err(BatchMatMulOpVerifyErr::OperandRankMismatch)
                } else if result.shape.len() != rank {
                    Err(BatchMatMulOpVerifyErr::InvalidRank)
                } else if rhs.element_type != lhs.element_type || accum.element_type
                    != lhs.element_type || result.element_type != lhs.element_type {
                    Err(BatchMatMulOpVerifyErr::ElementTypeMismatch)
                } else if let Some(i) = search::first_where(
                    (rank - 2) as nat,
                    batch_mismatch_at(lhs.shape, rhs.shape, accum.shape, result.shape),
                ) {
                    Err(
                        batch_error(
                            lhs.shape[i],
                            rhs.shape[i],
                            accum.shape[i],
                            result.shape[i],
                            i,
                        ),
                    )
                } else if type_interfaces::static_mismatch(lhs.shape[rank - 1], rhs.shape[rank - 2]) {
    Err(BatchMatMulOpVerifyErr::InnerDimMismatch { lhs_k: lhs.shape[rank - 1]->Static_0, rhs_k: rhs.shape[rank - 2]->Static_0 })
} else if type_interfaces::static_mismatch(lhs.shape[rank - 2], accum.shape[rank - 2]) {
    Err(BatchMatMulOpVerifyErr::ResultDimMismatch { dim: (rank - 2) as usize, result_d: accum.shape[rank - 2]->Static_0, expected: lhs.shape[rank - 2]->Static_0 })
} else if type_interfaces::static_mismatch(rhs.shape[rank - 1], accum.shape[rank - 1]) {
    Err(BatchMatMulOpVerifyErr::ResultDimMismatch { dim: (rank - 1) as usize, result_d: accum.shape[rank - 1]->Static_0, expected: rhs.shape[rank - 1]->Static_0 })
} else if type_interfaces::static_mismatch(accum.shape[rank - 2], result.shape[rank - 2]) {
    Err(BatchMatMulOpVerifyErr::ResultDimMismatch { dim: (rank - 2) as usize, result_d: result.shape[rank - 2]->Static_0, expected: accum.shape[rank - 2]->Static_0 })
} else if type_interfaces::static_mismatch(accum.shape[rank - 1], result.shape[rank - 1]) {
    Err(BatchMatMulOpVerifyErr::ResultDimMismatch { dim: (rank - 1) as usize, result_d: result.shape[rank - 1]->Static_0, expected: accum.shape[rank - 1]->Static_0 })
} else {
                    Ok(())
                }
            },
            _ => Err(BatchMatMulOpVerifyErr::InvalidRank),
        }
    }

    /// The operands and the result are of one rank, at least two, and of one element type,
    /// and their dimensions fit together.
    pub fn verify(&self, ctx: &Context) -> (r: Result<(), BatchMatMulOpVerifyErr>)
        requires
            self.wf(*ctx),
        ensures
            r == self.verdict(*ctx),
    {
        proof {
            assert(ctx.has_value(self.op.operands@[0]));
            assert(ctx.has_value(self.op.operands@[1]));
            assert(ctx.has_value(self.op.operands@[2]));
            assert(ctx.has(self.op.result_types@[0]));
        }
        let (lhs_ty, rhs_ty, accum_ty, result_ty) = match (
            ctx.ranked_tensor(self.op.operands[0].ty),
            ctx.ranked_tensor(self.op.operands[1].ty),
            ctx.ranked_tensor(self.op.operands[2].ty),
            ctx.ranked_tensor(self.op.result_types[0]),
        ) {
            (Some(lhs), Some(rhs), Some(accum), Some(result)) => (lhs, rhs, accum, result),
            _ => {
                return Err(BatchMatMulOpVerifyErr::InvalidRank);
            },
        };
        let rank: usize = lhs_ty.rank();
        if rank < 2 || rhs_ty.rank() < 2 || accum_ty.rank() < 2 || result_ty.rank() < 2 {
            return Err(BatchMatMulOpVerifyErr::InvalidRank);
        }
        if rhs_ty.rank() != rank || accum_ty.rank() != rank {
            return Err(BatchMatMulOpVerifyErr::OperandRankMismatch);
        }
        if result_ty.rank() != rank {
            return Err(BatchMatMulOpVerifyErr::InvalidRank);
        }
        if rhs_ty.element_type != lhs_ty.element_type || accum_ty.element_type
            != lhs_ty.element_type || result_ty.element_type != lhs_ty.element_type {
            return Err(BatchMatMulOpVerifyErr::ElementTypeMismatch);
        }
        let ghost wrong = batch_mismatch_at(
            lhs_ty.shape@,
            rhs_ty.shape@,
            accum_ty.shape@,
            result_ty.shape@,
        );
        let mut i: usize = 0;
        while i < rank - 2
            invariant
                2 <= rank,
                i <= rank - 2,
                lhs_ty.shape@.len() == rank,
                rhs_ty.shape@.len() == rank,
                accum_ty.shape@.len() == rank,
                result_ty.shape@.len() == rank,
                wrong == batch_mismatch_at(
                    lhs_ty.shape@,
                    rhs_ty.shape@,
                    accum_ty.shape@,
                    result_ty.shape@,
                ),
                search::first_where(i as nat, wrong) is None,
                ctx.as_tensor(self.op.operands@[0].ty) == Some(
                    ir::ShapeView { element_type: lhs_ty.element_type, shape: lhs_ty.shape@ },
                ),
                ctx.as_tensor(self.op.operands@[1].ty) == Some(
                    ir::ShapeView { element_type: rhs_ty.element_type, shape: rhs_ty.shape@ },
                ),
                ctx.as_tensor(self.op.operands@[2].ty) == Some(
                    ir::ShapeView { element_type: accum_ty.element_type, shape: accum_ty.shape@ },
                ),
                ctx.as_tensor(self.op.result_types@[0]) == Some(
                    ir::ShapeView {
                        element_type: result_ty.element_type,
                        shape: result_ty.shape@,
                    },
                ),
                rhs_ty.element_type == lhs_ty.element_type,
                accum_ty.element_type == lhs_ty.element_type,
                result_ty.element_type == lhs_ty.element_type,
            decreases rank - i,
        {
            proof {
                if wrong(i as int) {
                    assert(search::first_where((i + 1) as nat, wrong) == Some(i as int));
                    search::lemma_first_where_stable((i + 1) as nat, (rank - 2) as nat, wrong);
                }
            }
            if let (Dimension::Static(lhs_d), Dimension::Static(rhs_d)) = (
                lhs_ty.shape[i],
                rhs_ty.shape[i],
            ) {
                if lhs_d != rhs_d {
                    return Err(BatchMatMulOpVerifyErr::BatchDimMismatch { dim: i, lhs_d, rhs_d });
                }
            }
            if let (Dimension::Static(lhs_d), Dimension::Static(accum_d)) = (
                lhs_ty.shape[i],
                accum_ty.shape[i],
            ) {
                if lhs_d != accum_d {
                    return Err(
                        BatchMatMulOpVerifyErr::ResultDimMismatch {
                            dim: i,
                            result_d: accum_d,
                            expected: lhs_d,
                        },
                    );
                }
            }
            if let (Dimension::Static(lhs_d), Dimension::Static(res_d)) = (
                lhs_ty.shape[i],
                result_ty.shape[i],
            ) {
                if lhs_d != res_d {
                    return Err(
                        BatchMatMulOpVerifyErr::ResultDimMismatch {
                            dim: i,
                            result_d: res_d,
                            expected: lhs_d,
                        },
                    );
                }
            }
            i += 1;
        }
        if let (Dimension::Static(x), Dimension::Static(y)) = (lhs_ty.shape[rank - 1], rhs_ty.shape[rank - 2]) {
            if x != y {
                return Err(BatchMatMulOpVerifyErr::InnerDimMismatch { lhs_k: x, rhs_k: y });
            }
        }
        if let (Dimension::Static(x), Dimension::Static(y)) = (lhs_ty.shape[rank - 2], accum_ty.shape[rank - 2]) {
            if x != y {
                return Err(BatchMatMulOpVerifyErr::ResultDimMismatch { dim: rank - 2, result_d: y, expected: x });
            }
        }
        if let (Dimension::Static(x), Dimension::Static(y)) = (rhs_ty.shape[rank - 1], accum_ty.shape[rank - 1]) {
            if x != y {
                return Err(BatchMatMulOpVerifyErr::ResultDimMismatch { dim: rank - 1, result_d: y, expected: x });
            }
        }
        if let (Dimension::Static(x), Dimension::Static(y)) = (accum_ty.shape[rank - 2], result_ty.shape[rank - 2]) {
            if x != y {
                return Err(BatchMatMulOpVerifyErr::ResultDimMismatch { dim: rank - 2, result_d: y, expected: x });
            }
        }
        if let (Dimension::Static(x), Dimension::Static(y)) = (accum_ty.shape[rank - 1], result_ty.shape[rank - 1]) {
            if x != y {
                return Err(BatchMatMulOpVerifyErr::ResultDimMismatch { dim: rank - 1, result_d: y, expected: x });
            }
        }
        Ok(())
    }
}

/// Takes a slice of a tensor, with an offset, a size and a step in each dimension. The slice
/// has the rank of the source.
///
/// The parameters that are values follow the source among the operands.
#[derive(Debug)]
pub struct ExtractSliceOp {
    pub op: Operation,
    pub slice_params: Option<SliceParamsAttr>,
}

#[derive(Clone, Copy, Debug, PartialEq, Eq, Structural)]
pub enum ExtractSliceOpVerifyErr {
    ResultTypeMismatch,
    NonIndexOperand { index: usize, ty: TypeHandle },
    NumDynamicOperandsMismatch { expected: usize, got: usize },
    NumOffsetsMismatch { expected: usize, got: usize },
    NumSizesMismatch { expected: usize, got: usize },
    NumStepsMismatch { expected: usize, got: usize },
    MissingSliceParamsAttr,
    InvalidStaticStep { dim: usize },
}

impl ExtractSliceOp {
    /// A source and a result that are ranked tensors.
    pub open spec fn wf(&self, ctx: Context) -> bool {
        &&& self.op.typed_in(ctx)
        &&& self.op.operands@.len() >= 1
        &&& self.op.result_types@.len() == 1
        &&& ctx.as_tensor(self.op.operands@[0].ty) is Some
        &&& ctx.as_tensor(self.op.result_types@[0]) is Some
    }

    /// The parameters are there, and so are the operands that they refer to.
    pub open spec fn has_params(&self) -> bool {
        self.slice_params matches Some(params) && params.refers_within(self.op.operands@.len())
    }

    pub open spec fn offsets(&self) -> Seq<SliceParam> {
        slices::params_of(self.slice_params->Some_0.offsets@, self.op.operands@)
    }

    pub open spec fn sizes(&self) -> Seq<SliceParam> {
        slices::params_of(self.slice_params->Some_0.sizes@, self.op.operands@)
    }

    pub open spec fn steps(&self) -> Seq<SliceParam> {
        slices::params_of(self.slice_params->Some_0.steps@, self.op.operands@)
    }

    pub open spec fn verdict(&self, ctx: Context) -> Result<(), ExtractSliceOpVerifyErr> {
        let rank = ctx.as_tensor(self.op.operands@[0].ty)->Some_0.shape.len();
        let dynamic = self.op.operands@.skip(1);
        if ctx.as_tensor(self.op.result_types@[0])->Some_0.shape.len() != rank {
            Err(ExtractSliceOpVerifyErr::ResultTypeMismatch)
        } else {
            match self.slice_params {
                None => Err(ExtractSliceOpVerifyErr::MissingSliceParamsAttr),
                Some(params) => if params.offsets@.len() != rank {
                    Err(
                        ExtractSliceOpVerifyErr::NumOffsetsMismatch {
                            expected: rank as usize,
                            got: params.offsets@.len() as usize,
                        },
                    )
                } else if params.sizes@.len() != rank {
                    Err(
                        ExtractSliceOpVerifyErr::NumSizesMismatch {
                            expected: rank as usize,
                            got: params.sizes@.len() as usize,
                        },
                    )
                } else if params.steps@.len() != rank {
                    Err(
                        ExtractSliceOpVerifyErr::NumStepsMismatch {
                            expected: rank as usize,
                            got: params.steps@.len() as usize,
                        },
                    )
                } else if let Some(dim) = slices::first_zero_step(params.steps@) {
                    Err(ExtractSliceOpVerifyErr::InvalidStaticStep { dim: dim as usize })
                } else if let Some(i) = search::first_where(
                    dynamic.len(),
                    ir::non_index_at(ctx, dynamic),
                ) {
                    Err(
                        ExtractSliceOpVerifyErr::NonIndexOperand {
                            index: (i + 1) as usize,
                            ty: dynamic[i].ty,
                        },
                    )
                } else if dynamic.len() != params.num_dynamic() {
                    Err(
                        ExtractSliceOpVerifyErr::NumDynamicOperandsMismatch {
                            expected: params.num_dynamic() as usize,
                            got: dynamic.len() as usize,
                        },
                    )
                } else {
                    Ok(())
                },
            }
        }
    }

    /// There is one parameter of each kind per dimension, no constant step is zero, and the
    /// further operands are the values among the parameters, of index type.
    pub fn verify(&self, ctx: &Context) -> (r: Result<(), ExtractSliceOpVerifyErr>)
        requires
            self.wf(*ctx),
            self.slice_params matches Some(params) ==> params.countable(),
        ensures
            r == self.verdict(*ctx),
    {
        let dynamic: Vec<Value> = self.dynamic_operands();
        proof {
            assert(ctx.has_value(self.op.operands@[0]));
            assert(ctx.has(self.op.result_types@[0]));
            assert forall|i: int| 0 <= i < dynamic@.len() implies ctx.has_value(
                #[trigger] dynamic@[i],
            ) by {
                assert(ctx.has_value(self.op.operands@[i + 1]));
            }
        }
        let source_ty = ctx.ranked_tensor(self.source().ty).unwrap();
        let result_ty = ctx.ranked_tensor(self.op.result_types[0]).unwrap();
        let rank: usize = source_ty.rank();
        if result_ty.rank() != rank {
            return Err(ExtractSliceOpVerifyErr::ResultTypeMismatch);
        }
        let params = match &self.slice_params {
            Some(params) => params,
            None => {
                return Err(ExtractSliceOpVerifyErr::MissingSliceParamsAttr);
            },
        };
        if params.offsets.len() != rank {
            return Err(
                ExtractSliceOpVerifyErr::NumOffsetsMismatch {
                    expected: rank,
                    got: params.offsets.len(),
                },
            );
        }
        if params.sizes.len() != rank {
            return Err(
                ExtractSliceOpVerifyErr::NumSizesMismatch { expected: rank, got: params.sizes.len() },
            );
        }
        if params.steps.len() != rank {
            return Err(
                ExtractSliceOpVerifyErr::NumStepsMismatch { expected: rank, got: params.steps.len() },
            );
        }
        if let Some(dim) = slices::find_zero_step(&params.steps) {
            return Err(ExtractSliceOpVerifyErr::InvalidStaticStep { dim });
        }
        let expected: usize = slices::count_dynamic_params(params);
        if let Some(i) = ir::find_non_index(ctx, dynamic.as_slice()) {
            proof {
                search::lemma_first_where(
                    dynamic@.len(),
                    ir::non_index_at(*ctx, dynamic@),
                );
                assert(self.op.operands.len() == dynamic@.len() + 1);
            }
            return Err(
                ExtractSliceOpVerifyErr::NonIndexOperand { index: i + 1, ty: dynamic[i].ty },
            );
        }
        if dynamic.len() != expected {
            return Err(
                ExtractSliceOpVerifyErr::NumDynamicOperandsMismatch { expected, got: dynamic.len() },
            );
        }
        Ok(())
    }

    /// Takes a slice of `source`. The type of the result has the element type of the source
    /// and the given sizes.
    pub fn new(
        ctx: &mut Context,
        source: Value,
        offsets: Vec<SliceParam>,
        sizes: Vec<SliceParam>,
        steps: Vec<SliceParam>,
    ) -> (r: Self)
        requires
            old(ctx).wf(),
            old(ctx).has_value(source),
            old(ctx).as_tensor(source.ty) is Some,
            1 + offsets@.len() + sizes@.len() + steps@.len() <= usize::MAX,
        ensures
            final(ctx).wf(),
            final(ctx).extends(*old(ctx)),
            final(ctx).has(r.op.result_types@[0]),
            final(ctx).as_tensor(r.op.result_types@[0]) == Some(
                ir::ShapeView {
                    element_type: old(ctx).as_tensor(source.ty)->Some_0.element_type,
                    shape: slices::slice_shape(sizes@),
                },
            ),
            r.op.result_types@.len() == 1,
            r.op.operands@ == seq![source] + (slices::dynamic_values(offsets@)
                + slices::dynamic_values(sizes@) + slices::dynamic_values(steps@)),
            r.has_params(),
            r.offsets() == offsets@,
            r.sizes() == sizes@,
            r.steps() == steps@,
            r.slice_params->Some_0.num_dynamic() + 1 == r.op.operands@.len(),
    {
        let element_type: TypeHandle = ctx.ranked_tensor(source.ty).unwrap().element_type;
        let shape: Vec<Dimension> = slices::shape_of_sizes(&sizes);
        let result_type: TypeHandle = RankedTensorType::get(ctx, element_type, shape);
        Self::new_with_result_type(source, offsets, sizes, steps, result_type)
    }

    /// Takes a slice of `source` with the given type.
    pub fn new_with_result_type(
        source: Value,
        offsets: Vec<SliceParam>,
        sizes: Vec<SliceParam>,
        steps: Vec<SliceParam>,
        result_type: TypeHandle,
    ) -> (r: Self)
        requires
            1 + offsets@.len() + sizes@.len() + steps@.len() <= usize::MAX,
        ensures
            r.op.result_types@ == seq![result_type],
            r.op.operands@ == seq![source] + (slices::dynamic_values(offsets@)
                + slices::dynamic_values(sizes@) + slices::dynamic_values(steps@)),
            r.has_params(),
            r.offsets() == offsets@,
            r.sizes() == sizes@,
            r.steps() == steps@,
            r.slice_params->Some_0.num_dynamic() + 1 == r.op.operands@.len(),
    {
        let mut operands: Vec<Value> = vec![source];
        let params = slices::store_slice(&offsets, &sizes, &steps, &mut operands);
        proof {
            slices::law_slice_round_trip(offsets@, sizes@, steps@, seq![source]);
        }
        ExtractSliceOp {
            op: Operation { operands, result_types: vec![result_type] },
            slice_params: Some(params),
        }
    }

    /// The tensor that is sliced.
    pub fn source(&self) -> (r: Value)
        requires
            self.op.operands@.len() >= 1,
        ensures
            r == self.op.operands@[0],
    {
        self.op.operands[0]
    }

    /// The offset in each dimension.
    pub fn slice_offsets(&self) -> (r: Vec<SliceParam>)
        requires
            self.has_params(),
        ensures
            r@ == self.offsets(),
    {
        slices::load_params(&self.slice_params.as_ref().unwrap().offsets, &self.op.operands)
    }

    /// The size in each dimension.
    pub fn slice_sizes(&self) -> (r: Vec<SliceParam>)
        requires
            self.has_params(),
        ensures
            r@ == self.sizes(),
    {
        slices::load_params(&self.slice_params.as_ref().unwrap().sizes, &self.op.operands)
    }

    /// The step in each dimension.
    pub fn slice_steps(&self) -> (r: Vec<SliceParam>)
        requires
            self.has_params(),
        ensures
            r@ == self.steps(),
    {
        slices::load_params(&self.slice_params.as_ref().unwrap().steps, &self.op.operands)
    }

    /// The values among the parameters.
    pub fn dynamic_operands(&self) -> (r: Vec<Value>)
        requires
            self.op.operands@.len() >= 1,
        ensures
            r@ == self.op.operands@.skip(1),
    {
        ir::values_from(&self.op.operands, 1)
    }
}

/// A slice with one parameter of each kind per dimension is valid exactly if no constant step
/// is zero and the values among the parameters are of index type.
pub proof fn law_extract_slice_verifies(ctx: Context, op: ExtractSliceOp)
    requires
        op.wf(ctx),
        op.has_params(),
        ({
            let rank = ctx.as_tensor(op.op.operands@[0].ty)->0.shape.len();
            &&& ctx.as_tensor(op.op.result_types@[0])->0.shape.len() == rank
            &&& op.offsets().len() == rank
            &&& op.sizes().len() == rank
            &&& op.steps().len() == rank
        }),
        op.slice_params->0.num_dynamic() + 1 == op.op.operands@.len(),
    ensures
        op.verdict(ctx) is Ok <==> slices::steps_move(op.steps()) && ir::all_index(
            ctx,
            op.op.operands@.skip(1),
        ),
{
    slices::lemma_steps_move(op.slice_params->0.steps@, op.op.operands@);
    ir::lemma_all_index(ctx, op.op.operands@.skip(1));
}

/// Replaces a slice of a tensor, with an offset, a size and a step in each dimension, by
/// another tensor of the same rank.
///
/// The source comes first among the operands, then the destination, then the parameters that
/// are values. The result is of the type of the destination.
#[derive(Debug)]
pub struct InsertSliceOp {
    pub op: Operation,
    pub slice_params: Option<SliceParamsAttr>,
}

#[derive(Clone, Copy, Debug, PartialEq, Eq, Structural)]
pub enum InsertSliceOpVerifyErr {
    SourceDestinationRankMismatch,
    ElementTypeMismatch,
    ResultTypeMismatch,
    NonIndexOperand { index: usize, ty: TypeHandle },
    NumDynamicOperandsMismatch { expected: usize, got: usize },
    NumOffsetsMismatch { expected: usize, got: usize },
    NumSizesMismatch { expected: usize, got: usize },
    NumStepsMismatch { expected: usize, got: usize },
    MissingSliceParamsAttr,
    InvalidStaticStep { dim: usize },
    StaticSizeSourceMismatch { dim: usize, size: usize, source_dim: usize },
}

/// The size at each index is constant and differs from a static dimension of the source.
pub open spec fn size_mismatch_at(
    sizes: Seq<SliceParamAttr>,
    source: Seq<Dimension>,
) -> spec_fn(int) -> bool {
    |i: int|
        sizes[i] is Static && source[i] is Static && sizes[i]->Static_0 != source[i]->Static_0
}

/// The first dimension in which a constant size differs from a static dimension of the
/// source.
pub fn find_size_mismatch(sizes: &Vec<SliceParamAttr>, source: &Vec<Dimension>) -> (r: Option<
    (usize, usize, usize),
>)
    requires
        sizes@.len() == source@.len(),
    ensures
        match r {
            Some((dim, size, source_dim)) => {
                &&& search::first_where(sizes@.len(), size_mismatch_at(sizes@, source@)) == Some(
                    dim as int,
                )
                &&& size == sizes@[dim as int]->Static_0
                &&& source_dim == source@[dim as int]->Static_0
            },
            None => search::first_where(sizes@.len(), size_mismatch_at(sizes@, source@)) is None,
        },
{
    let ghost wrong = size_mismatch_at(sizes@, source@);
    let mut i: usize = 0;
    while i < sizes.len()
        invariant
            i <= sizes@.len() == source@.len(),
            wrong == size_mismatch_at(sizes@, source@),
            search::first_where(i as nat, wrong) is None,
        decreases sizes@.len() - i,
    {
        if let (SliceParamAttr::Static(size), Dimension::Static(source_dim)) = (
            sizes[i],
            source[i],
        ) {
            if size != source_dim {
                proof {
                    assert(wrong(i as int));
                    search::lemma_first_where_stable((i + 1) as nat, sizes@.len(), wrong);
                }
                return Some((i, size, source_dim));
            }
        }
        assert(!wrong(i as int));
        i += 1;
    }
    None
}

impl InsertSliceOp {
    /// A source and a destination that are ranked tensors, and one result.
    pub open spec fn wf(&self, ctx: Context) -> bool {
        &&& self.op.typed_in(ctx)
        &&& self.op.operands@.len() >= 2
        &&& self.op.result_types@.len() == 1
        &&& ctx.as_tensor(self.op.operands@[0].ty) is Some
        &&& ctx.as_tensor(self.op.operands@[1].ty) is Some
    }

    /// The parameters are there, and so are the operands that they refer to.
    pub open spec fn has_params(&self) -> bool {
        self.slice_params matches Some(params) && params.refers_within(self.op.operands@.len())
    }

    pub open spec fn offsets(&self) -> Seq<SliceParam> {
        slices::params_of(self.slice_params->Some_0.offsets@, self.op.operands@)
    }

    pub open spec fn sizes(&self) -> Seq<SliceParam> {
        slices::params_of(self.slice_params->Some_0.sizes@, self.op.operands@)
    }

    pub open spec fn steps(&self) -> Seq<SliceParam> {
        slices::params_of(self.slice_params->Some_0.steps@, self.op.operands@)
    }

    pub open spec fn verdict(&self, ctx: Context) -> Result<(), InsertSliceOpVerifyErr> {
        let source = ctx.as_tensor(self.op.operands@[0].ty)->Some_0;
        let destination = ctx.as_tensor(self.op.operands@[1].ty)->Some_0;
        let rank = source.shape.len();
        let dynamic = self.op.operands@.skip(2);
        if destination.shape.len() != rank {
            Err(InsertSliceOpVerifyErr::SourceDestinationRankMismatch)
        } else if source.element_type != destination.element_type {
            Err(InsertSliceOpVerifyErr::ElementTypeMismatch)
        } else if ctx.as_tensor(self.op.result_types@[0]) != Some(destination) {
            Err(InsertSliceOpVerifyErr::ResultTypeMismatch)
        } else {
            match self.slice_params {
                None => Err(InsertSliceOpVerifyErr::MissingSliceParamsAttr),
                Some(params) => if params.offsets@.len() != rank {
                    Err(
                        InsertSliceOpVerifyErr::NumOffsetsMismatch {
                            expected: rank as usize,
                            got: params.offsets@.len() as usize,
                        },
                    )
                } else if params.sizes@.len() != rank {
                    Err(
                        InsertSliceOpVerifyErr::NumSizesMismatch {
                            expected: rank as usize,
                            got: params.sizes@.len() as usize,
                        },
                    )
                } else if params.steps@.len() != rank {
                    Err(
                        InsertSliceOpVerifyErr::NumStepsMismatch {
                            expected: rank as usize,
                            got: params.steps@.len() as usize,
                        },
                    )
                } else if let Some(dim) = slices::first_zero_step(params.steps@) {
                    Err(InsertSliceOpVerifyErr::InvalidStaticStep { dim: dim as usize })
                } else if let Some(dim) = search::first_where(
                    rank,
                    size_mismatch_at(params.sizes@, source.shape),
                ) {
                    Err(
                        InsertSliceOpVerifyErr::StaticSizeSourceMismatch {
                            dim: dim as usize,
                            size: params.sizes@[dim]->Static_0,
                            source_dim: source.shape[dim]->Static_0,
                        },
                    )
                } else if let Some(i) = search::first_where(
                    dynamic.len(),
                    ir::non_index_at(ctx, dynamic),
                ) {
                    Err(
                        InsertSliceOpVerifyErr::NonIndexOperand {
                            index: (i + 2) as usize,
                            ty: dynamic[i].ty,
                        },
                    )
                } else if dynamic.len() != params.num_dynamic() {
                    Err(
                        InsertSliceOpVerifyErr::NumDynamicOperandsMismatch {
                            expected: params.num_dynamic() as usize,
                            got: dynamic.len() as usize,
                        },
                    )
                } else {
                    Ok(())
                },
            }
        }
    }

    /// The source and the destination agree in rank and element type, the result is of the
    /// type of the destination, there is one parameter of each kind per dimension, no
    /// constant step is zero, constant sizes are those of the source, and the further
    /// operands are the values among the parameters, of index type.
    pub fn verify(&self, ctx: &Context) -> (r: Result<(), InsertSliceOpVerifyErr>)
        requires
            self.wf(*ctx),
            self.slice_params matches Some(params) ==> params.countable(),
        ensures
            r == self.verdict(*ctx),
    {
        let dynamic: Vec<Value> = self.dynamic_operands();
        proof {
            assert(ctx.has_value(self.op.operands@[0]));
            assert(ctx.has_value(self.op.operands@[1]));
            assert(ctx.has(self.op.result_types@[0]));
            assert forall|i: int| 0 <= i < dynamic@.len() implies ctx.has_value(
                #[trigger] dynamic@[i],
            ) by {
                assert(ctx.has_value(self.op.operands@[i + 2]));
            }
        }
        let source_ty = ctx.ranked_tensor(self.source().ty).unwrap();
        let destination_ty = ctx.ranked_tensor(self.destination().ty).unwrap();
        let rank: usize = source_ty.rank();
        if destination_ty.rank() != rank {
            return Err(InsertSliceOpVerifyErr::SourceDestinationRankMismatch);
        }
        if source_ty.element_type != destination_ty.element_type {
            return Err(InsertSliceOpVerifyErr::ElementTypeMismatch);
        }
        let result_ty = match ctx.ranked_tensor(self.op.result_types[0]) {
            Some(result) => result,
            None => {
                return Err(InsertSliceOpVerifyErr::ResultTypeMismatch);
            },
        };
        if !type_interfaces::same_shape(&result_ty.shape, &destination_ty.shape)
            || result_ty.element_type != destination_ty.element_type {
            return Err(InsertSliceOpVerifyErr::ResultTypeMismatch);
        }
        let params = match &self.slice_params {
            Some(params) => params,
            None => {
                return Err(InsertSliceOpVerifyErr::MissingSliceParamsAttr);
            },
        };
        if params.offsets.len() != rank {
            return Err(
                InsertSliceOpVerifyErr::NumOffsetsMismatch {
                    expected: rank,
                    got: params.offsets.len(),
                },
            );
        }
        if params.sizes.len() != rank {
            return Err(
                InsertSliceOpVerifyErr::NumSizesMismatch {
                    expected: rank,
                    got: params.sizes.len(),
                },
            );
        }
        if params.steps.len() != rank {
            return Err(
                InsertSliceOpVerifyErr::NumStepsMismatch {
                    expected: rank,
                    got: params.steps.len(),
                },
            );
        }
        if let Some(dim) = slices::find_zero_step(&params.steps) {
            return Err(InsertSliceOpVerifyErr::InvalidStaticStep { dim });
        }
        if let Some((dim, size, source_dim)) = find_size_mismatch(
            &params.sizes,
            &source_ty.shape,
        ) {
            return Err(
                InsertSliceOpVerifyErr::StaticSizeSourceMismatch { dim, size, source_dim },
            );
        }
        let expected: usize = slices::count_dynamic_params(params);
        if let Some(i) = ir::find_non_index(ctx, dynamic.as_slice()) {
            proof {
                search::lemma_first_where(dynamic@.len(), ir::non_index_at(*ctx, dynamic@));
                assert(self.op.operands.len() == dynamic@.len() + 2);
            }
            return Err(
                InsertSliceOpVerifyErr::NonIndexOperand { index: i + 2, ty: dynamic[i].ty },
            );
        }
        if dynamic.len() != expected {
            return Err(
                InsertSliceOpVerifyErr::NumDynamicOperandsMismatch {
                    expected,
                    got: dynamic.len(),
                },
            );
        }
        Ok(())
    }

    /// Replaces a slice of `destination`. The result is of its type.
    pub fn new(
        source: Value,
        destination: Value,
        offsets: Vec<SliceParam>,
        sizes: Vec<SliceParam>,
        steps: Vec<SliceParam>,
    ) -> (r: Self)
        requires
            2 + offsets@.len() + sizes@.len() + steps@.len() <= usize::MAX,
        ensures
            r.op.result_types@ == seq![destination.ty],
            r.op.operands@ == seq![source, destination] + (slices::dynamic_values(offsets@)
                + slices::dynamic_values(sizes@) + slices::dynamic_values(steps@)),
            r.has_params(),
            r.offsets() == offsets@,
            r.sizes() == sizes@,
            r.steps() == steps@,
            r.slice_params->Some_0.num_dynamic() + 2 == r.op.operands@.len(),
    {
        Self::new_with_result_type(source, destination, offsets, sizes, steps, destination.ty)
    }

    /// Replaces a slice of `destination`, with the given type of the result.
    pub fn new_with_result_type(
        source: Value,
        destination: Value,
        offsets: Vec<SliceParam>,
        sizes: Vec<SliceParam>,
        steps: Vec<SliceParam>,
        result_type: TypeHandle,
    ) -> (r: Self)
        requires
            2 + offsets@.len() + sizes@.len() + steps@.len() <= usize::MAX,
        ensures
            r.op.result_types@ == seq![result_type],
            r.op.operands@ == seq![source, destination] + (slices::dynamic_values(offsets@)
                + slices::dynamic_values(sizes@) + slices::dynamic_values(steps@)),
            r.has_params(),
            r.offsets() == offsets@,
            r.sizes() == sizes@,
            r.steps() == steps@,
            r.slice_params->Some_0.num_dynamic() + 2 == r.op.operands@.len(),
    {
        let mut operands: Vec<Value> = vec![source, destination];
        let params = slices::store_slice(&offsets, &sizes, &steps, &mut operands);
        proof {
            slices::law_slice_round_trip(offsets@, sizes@, steps@, seq![source, destination]);
        }
        InsertSliceOp {
            op: Operation { operands, result_types: vec![result_type] },
            slice_params: Some(params),
        }
    }

    /// The tensor to insert.
    pub fn source(&self) -> (r: Value)
        requires
            self.op.operands@.len() >= 2,
        ensures
            r == self.op.operands@[0],
    {
        self.op.operands[0]
    }

    /// The tensor to insert into.
    pub fn destination(&self) -> (r: Value)
        requires
            self.op.operands@.len() >= 2,
        ensures
            r == self.op.operands@[1],
    {
        self.op.operands[1]
    }

    /// The offset in each dimension.
    pub fn slice_offsets(&self) -> (r: Vec<SliceParam>)
        requires
            self.has_params(),
        ensures
            r@ == self.offsets(),
    {
        slices::load_params(&self.slice_params.as_ref().unwrap().offsets, &self.op.operands)
    }

    /// The size in each dimension.
    pub fn slice_sizes(&self) -> (r: Vec<SliceParam>)
        requires
            self.has_params(),
        ensures
            r@ == self.sizes(),
    {
        slices::load_params(&self.slice_params.as_ref().unwrap().sizes, &self.op.operands)
    }

    /// The step in each dimension.
    pub fn slice_steps(&self) -> (r: Vec<SliceParam>)
        requires
            self.has_params(),
        ensures
            r@ == self.steps(),
    {
        slices::load_params(&self.slice_params.as_ref().unwrap().steps, &self.op.operands)
    }

    /// The values among the parameters.
    pub fn dynamic_operands(&self) -> (r: Vec<Value>)
        requires
            self.op.operands@.len() >= 2,
        ensures
            r@ == self.op.operands@.skip(2),
    {
        ir::values_from(&self.op.operands, 2)
    }
}

/// A slice that is inserted with one parameter of each kind per dimension, with the sizes of the
/// source, is valid exactly if no constant step is zero and the values among the parameters are
/// of index type.
pub proof fn law_insert_slice_verifies(ctx: Context, op: InsertSliceOp)
    requires
        op.wf(ctx),
        op.has_params(),
        ({
            let source = ctx.as_tensor(op.op.operands@[0].ty)->0;
            let rank = source.shape.len();
            &&& ctx.as_tensor(op.op.operands@[1].ty)->0.shape.len() == rank
            &&& ctx.as_tensor(op.op.operands@[1].ty)->0.element_type == source.element_type
            &&& ctx.as_tensor(op.op.result_types@[0]) == ctx.as_tensor(op.op.operands@[1].ty)
            &&& op.offsets().len() == rank
            &&& op.sizes().len() == rank
            &&& op.steps().len() == rank
            &&& type_interfaces::compatible_shapes(slices::slice_shape(op.sizes()), source.shape)
        }),
        op.slice_params->0.num_dynamic() + 2 == op.op.operands@.len(),
    ensures
        op.verdict(ctx) is Ok <==> slices::steps_move(op.steps()) && ir::all_index(
            ctx,
            op.op.operands@.skip(2),
        ),
{
    slices::lemma_steps_move(op.slice_params->0.steps@, op.op.operands@);
    ir::lemma_all_index(ctx, op.op.operands@.skip(2));
    let source = ctx.as_tensor(op.op.operands@[0].ty)->0.shape;
    let sizes = op.slice_params->0.sizes@;
    let wrong = size_mismatch_at(sizes, source);
    search::lemma_first_where(source.len(), wrong);
    if let Some(dim) = search::first_where(source.len(), wrong) {
        assert(op.sizes()[dim] == SliceParam::Static(sizes[dim]->Static_0));
        assert(slices::slice_shape(op.sizes())[dim] is Static);
    }
}

/// Gives a tensor another shape.
///
/// The source and the result have the same element type and the same number of elements.
/// The sizes of the dynamic dimensions of the result follow the source among the operands.
#[derive(Debug)]
pub struct ReshapeOp {
    pub op: Operation,
}

#[derive(Clone, Copy, Debug, PartialEq, Eq, Structural)]
pub enum ReshapeOpVerifyErr {
    SourceNotRankedTensor,
    ElementTypeMismatch,
    DynDimCountMismatch { expected: usize, got: usize },
    DynDimNotIndex,
    ElementCountMismatch { src_count: usize, result_count: usize },
}

impl ReshapeOp {
    /// A source, and a result that is a ranked tensor.
    pub open spec fn wf(&self, ctx: Context) -> bool {
        &&& self.op.typed_in(ctx)
        &&& self.op.operands@.len() >= 1
        &&& self.op.result_types@.len() == 1
        &&& ctx.as_tensor(self.op.result_types@[0]) is Some
    }

    /// The elements of fully static shapes can be counted in a machine word.
    pub open spec fn countable(&self, ctx: Context) -> bool {
        &&& ctx.as_tensor(self.op.operands@[0].ty) matches Some(source)
            ==> type_interfaces::countable(source.shape)
        &&& ctx.as_tensor(self.op.result_types@[0]) matches Some(result)
            ==> type_interfaces::countable(result.shape)
    }

    pub fn new(source: Value, dynamic_dimensions: Vec<Value>, result_type: TypeHandle) -> (r: Self)
        ensures
            r.op.operands@ == seq![source] + dynamic_dimensions@,
            r.op.result_types@ == seq![result_type],
    {
        let mut operands: Vec<Value> = vec![source];
        let mut rest: Vec<Value> = dynamic_dimensions;
        operands.append(&mut rest);
        ReshapeOp { op: Operation { operands, result_types: vec![result_type] } }
    }

    /// The tensor to reshape.
    pub fn get_source(&self) -> (r: Value)
        requires
            self.op.operands@.len() >= 1,
        ensures
            r == self.op.operands@[0],
    {
        self.op.operands[0]
    }

    /// The sizes of the dynamic dimensions of the result.
    pub fn get_dynamic_dimensions(&self) -> (r: Vec<Value>)
        requires
            self.op.operands@.len() >= 1,
        ensures
            r@ == self.op.operands@.skip(1),
    {
        ir::values_from(&self.op.operands, 1)
    }

    pub open spec fn verdict(&self, ctx: Context) -> Result<(), ReshapeOpVerifyErr> {
        let result = ctx.as_tensor(self.op.result_types@[0])->Some_0;
        let dynamic = self.op.operands@.skip(1);
        match ctx.as_tensor(self.op.operands@[0].ty) {
            None => Err(ReshapeOpVerifyErr::SourceNotRankedTensor),
            Some(source) => if source.element_type != result.element_type {
                Err(ReshapeOpVerifyErr::ElementTypeMismatch)
            } else if dynamic.len() != type_interfaces::num_dynamic(result.shape) {
                Err(
                    ReshapeOpVerifyErr::DynDimCountMismatch {
                        expected: type_interfaces::num_dynamic(result.shape) as usize,
                        got: dynamic.len() as usize,
                    },
                )
            } else if !ir::all_index(ctx, dynamic) {
                Err(ReshapeOpVerifyErr::DynDimNotIndex)
            } else if type_interfaces::fully_static(source.shape)
                && type_interfaces::fully_static(result.shape)
                && type_interfaces::static_elements(source.shape)
                != type_interfaces::static_elements(result.shape) {
                Err(
                    ReshapeOpVerifyErr::ElementCountMismatch {
                        src_count: type_interfaces::static_elements(source.shape) as usize,
                        result_count: type_interfaces::static_elements(result.shape) as usize,
                    },
                )
            } else {
                Ok(())
            },
        }
    }

    /// The element types agree, the sizes of the dynamic dimensions are there, and so many
    /// elements go in as come out, where both numbers are known.
    pub fn verify(&self, ctx: &Context) -> (r: Result<(), ReshapeOpVerifyErr>)
        requires
            self.wf(*ctx),
            self.countable(*ctx),
        ensures
            r == self.verdict(*ctx),
    {
        let dynamic: Vec<Value> = self.get_dynamic_dimensions();
        proof {
            assert(ctx.has_value(self.op.operands@[0]));
            assert(ctx.has(self.op.result_types@[0]));
            assert forall|i: int| 0 <= i < dynamic@.len() implies ctx.has_value(
                #[trigger] dynamic@[i],
            ) by {
                assert(ctx.has_value(self.op.operands@[i + 1]));
            }
        }
        let source_ty = match ctx.ranked_tensor(self.get_source().ty) {
            Some(ty) => ty,
            None => {
                return Err(ReshapeOpVerifyErr::SourceNotRankedTensor);
            },
        };
        let result_ty = ctx.ranked_tensor(self.op.result_types[0]).unwrap();
        if source_ty.element_type != result_ty.element_type {
            return Err(ReshapeOpVerifyErr::ElementTypeMismatch);
        }
        let expected: usize = result_ty.num_dynamic_dimensions();
        if dynamic.len() != expected {
            return Err(
                ReshapeOpVerifyErr::DynDimCountMismatch { expected, got: dynamic.len() },
            );
        }
        if ir::find_non_index(ctx, dynamic.as_slice()).is_some() {
            return Err(ReshapeOpVerifyErr::DynDimNotIndex);
        }
        if let (Some(src_count), Some(result_count)) = (
            source_ty.num_elements(),
            result_ty.num_elements(),
        ) {
            if src_count != result_count {
                return Err(
                    ReshapeOpVerifyErr::ElementCountMismatch { src_count, result_count },
                );
            }
        }
        Ok(())
    }
}

} // verus!

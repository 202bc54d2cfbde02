//! Operations of the memref dialect.

use crate::ir;
use crate::ir::{Context, Operation, TypeHandle, TypeObj, Value};
use crate::memref::attributes::SliceParamsAttr;
use crate::memref::slices;
pub use crate::memref::slices::SliceParam;
use crate::memref::type_interfaces;
use crate::memref::type_interfaces::{Dimension, ShapedType};
use crate::memref::types::RankedMemrefType;
use vstd::prelude::*;

verus! {

/// Allocates a memref.
///
/// Takes one operand of index type for each dynamic dimension of the result, which says how
/// large the dimension is.
#[derive(Debug)]
pub struct AllocOp {
    pub op: Operation,
}

#[derive(Clone, Copy, Debug, PartialEq, Eq, Structural)]
pub enum AllocOpVerifyError {
    NumDynamicDimOperandsDoesNotMatchNumDynamicDims { expected: usize, got: usize },
}

impl AllocOp {
    /// One result, which is a ranked memref.
    pub open spec fn wf(&self, ctx: Context) -> bool {
        &&& self.op.typed_in(ctx)
        &&& self.op.result_types@.len() == 1
        &&& ctx.as_memref(self.op.result_types@[0]) is Some
    }

    /// Allocates a memref of the given type.
    pub fn new(result_ty: TypeHandle, dynamic_dimensions: Vec<Value>) -> (r: Self)
        ensures
            r.op.operands@ == dynamic_dimensions@,
            r.op.result_types@ == seq![result_ty],
    {
        AllocOp { op: Operation { operands: dynamic_dimensions, result_types: vec![result_ty] } }
    }

    /// The size of each dynamic dimension.
    pub fn get_dynamic_dimensions(&self) -> (r: Vec<Value>)
        ensures
            r@ == self.op.operands@,
    {
        ir::copy_values(self.op.operands.as_slice())
    }

    pub open spec fn verdict(&self, ctx: Context) -> Result<(), AllocOpVerifyError> {
        let expected = type_interfaces::num_dynamic(
            ctx.as_memref(self.op.result_types@[0])->Some_0.shape,
        );
        let got = self.op.operands@.len();
        if got != expected {
            Err(
                AllocOpVerifyError::NumDynamicDimOperandsDoesNotMatchNumDynamicDims {
                    expected: expected as usize,
                    got: got as usize,
                },
            )
        } else {
            Ok(())
        }
    }

    /// There is one operand for each dynamic dimension.
    pub fn verify(&self, ctx: &Context) -> (r: Result<(), AllocOpVerifyError>)
        requires
            self.wf(*ctx),
        ensures
            r == self.verdict(*ctx),
    {
        assert(ctx.has(self.op.result_types@[0]));
        let result_ty = ctx.ranked_memref(self.op.result_types[0]).unwrap();
        let expected: usize = result_ty.num_dynamic_dimensions();
        let got: usize = self.op.operands.len();
        if got != expected {
            return Err(
                AllocOpVerifyError::NumDynamicDimOperandsDoesNotMatchNumDynamicDims {
                    expected,
                    got,
                },
            );
        }
        Ok(())
    }
}

/// Deallocates a memref.
#[derive(Debug)]
pub struct DeallocOp {
    pub op: Operation,
}

impl DeallocOp {
    pub open spec fn wf(&self) -> bool {
        self.op.operands@.len() == 1
    }

    pub fn new(memref: Value) -> (r: Self)
        ensures
            r.op.operands@ == seq![memref],
            r.op.result_types@.len() == 0,
    {
        DeallocOp { op: Operation { operands: vec![memref], result_types: Vec::new() } }
    }

    /// The memref to deallocate.
    pub fn get_memref(&self) -> (r: Value)
        requires
            self.wf(),
        ensures
            r == self.op.operands@[0],
    {
        self.op.operands[0]
    }
}

/// Fills a memref with the values that a region yields for each index.
///
/// The region takes one index per dimension and yields a value of the element type.
#[derive(Debug)]
pub struct GenerateOp {
    pub op: Operation,
    /// The indices that the region takes.
    pub arguments: Vec<Value>,
    /// What the region yields.
    pub yield_op: YieldOp,
}

impl GenerateOp {
    /// One operand, which is a ranked memref.
    pub open spec fn wf(&self, ctx: Context) -> bool {
        &&& self.op.typed_in(ctx)
        &&& self.op.operands@.len() == 1
        &&& ctx.as_memref(self.op.operands@[0].ty) is Some
    }

    /// Fills `memref` with what `body_builder` yields for the indices it is given.
    ///
    /// The indices are new values, numbered from `first_index` on.
    pub fn new<F: FnOnce(Vec<Value>) -> Value>(
        ctx: &mut Context,
        memref: Value,
        first_index: usize,
        body_builder: F,
    ) -> (r: Self)
        requires
            old(ctx).wf(),
            old(ctx).has_value(memref),
            old(ctx).as_memref(memref.ty) is Some,
            first_index + old(ctx).as_memref(memref.ty)->Some_0.shape.len() <= usize::MAX,
            forall|indices: Vec<Value>|
                indices@.len() == old(ctx).as_memref(memref.ty)->Some_0.shape.len()
                    ==> #[trigger] call_requires(body_builder, (indices,)),
        ensures
            final(ctx).wf(),
            final(ctx).extends(*old(ctx)),
            r.op.operands@ == seq![memref],
            r.op.result_types@.len() == 0,
            exists|index_ty: TypeHandle|
                final(ctx).has(index_ty) && final(ctx).get(index_ty) is Index && r.arguments@
                    == #[trigger] ir::block_arguments(
                    first_index,
                    index_ty,
                    old(ctx).as_memref(memref.ty)->Some_0.shape.len(),
                ),
            r.yield_op.op.operands@.len() == 1,
            exists|indices: Vec<Value>|
                indices@ == r.arguments@ && #[trigger] call_ensures(
                    body_builder,
                    (indices,),
                    r.yield_op.op.operands@[0],
                ),
    {
        let rank: usize = ctx.ranked_memref(memref.ty).unwrap().rank();
        let index_ty = ctx.intern(TypeObj::Index);
        let arguments: Vec<Value> = ir::make_block_arguments(first_index, index_ty, rank);
        let indices: Vec<Value> = ir::copy_values(arguments.as_slice());
        let ghost given = indices;
        let yielded: Value = body_builder(indices);
        let yield_op = YieldOp::new(yielded);
        let r = GenerateOp {
            op: Operation { operands: vec![memref], result_types: Vec::new() },
            arguments,
            yield_op,
        };
        assert(given@ == r.arguments@);
        assert(call_ensures(body_builder, (given,), r.yield_op.op.operands@[0]));
        r
    }

    /// The memref to fill.
    pub fn get_destination_memref(&self) -> (r: Value)
        requires
            self.op.operands@.len() == 1,
        ensures
            r == self.op.operands@[0],
    {
        self.op.operands[0]
    }

    /// The type of the memref to fill.
    pub fn get_destination_memref_type<'a>(&self, ctx: &'a Context) -> (r: &'a RankedMemrefType)
        requires
            self.wf(*ctx),
        ensures
            Some(ir::ShapeView { element_type: r.element_type, shape: r.shape@ }) == ctx.as_memref(
                self.op.operands@[0].ty,
            ),
    {
        assert(ctx.has_value(self.op.operands@[0]));
        ctx.ranked_memref(self.op.operands[0].ty).unwrap()
    }

    /// The shape of the memref to fill.
    pub fn get_generated_shape<'a>(&self, ctx: &'a Context) -> (r: &'a Vec<Dimension>)
        requires
            self.wf(*ctx),
        ensures
            r@ == ctx.as_memref(self.op.operands@[0].ty)->Some_0.shape,
    {
        self.get_destination_memref_type(ctx).shape()
    }
}

/// Yields a value from a region.
#[derive(Debug)]
pub struct YieldOp {
    pub op: Operation,
}

impl YieldOp {
    pub fn new(value: Value) -> (r: Self)
        ensures
            r.op.operands@ == seq![value],
            r.op.result_types@.len() == 0,
    {
        YieldOp { op: Operation { operands: vec![value], result_types: Vec::new() } }
    }
}

/// Stores a value into a memref at an index per dimension.
#[derive(Debug)]
pub struct StoreOp {
    pub op: Operation,
}

#[derive(Clone, Copy, Debug, PartialEq, Eq, Structural)]
pub enum StoreOpVerifyError {
    FirstOperandNotSameTypeAsMemrefElementType,
    NumIndicesDoesNotMatchMemrefRank { expected: usize, got: usize },
    IndexOperandNotOfIndexType,
}

impl StoreOp {
    /// A value, a ranked memref and any number of indices.
    pub open spec fn wf(&self, ctx: Context) -> bool {
        &&& self.op.typed_in(ctx)
        &&& self.op.operands@.len() >= 2
        &&& ctx.as_memref(self.op.operands@[1].ty) is Some
    }

    pub fn new(value: Value, memref: Value, indices: Vec<Value>) -> (r: Self)
        ensures
            r.op.operands@ == seq![value, memref] + indices@,
            r.op.result_types@.len() == 0,
    {
        let mut operands: Vec<Value> = vec![value, memref];
        let mut rest: Vec<Value> = indices;
        operands.append(&mut rest);
        StoreOp { op: Operation { operands, result_types: Vec::new() } }
    }

    /// The value to store.
    pub fn get_value(&self) -> (r: Value)
        requires
            self.op.operands@.len() >= 2,
        ensures
            r == self.op.operands@[0],
    {
        self.op.operands[0]
    }

    /// The memref to store into.
    pub fn get_destination_memref(&self) -> (r: Value)
        requires
            self.op.operands@.len() >= 2,
        ensures
            r == self.op.operands@[1],
    {
        self.op.operands[1]
    }

    /// Where to store.
    pub fn get_indices(&self) -> (r: Vec<Value>)
        requires
            self.op.operands@.len() >= 2,
        ensures
            r@ == self.op.operands@.skip(2),
    {
        ir::values_from(&self.op.operands, 2)
    }

    pub open spec fn verdict(&self, ctx: Context) -> Result<(), StoreOpVerifyError> {
        let memref = ctx.as_memref(self.op.operands@[1].ty)->Some_0;
        let indices = self.op.operands@.skip(2);
        if self.op.operands@[0].ty != memref.element_type {
            Err(StoreOpVerifyError::FirstOperandNotSameTypeAsMemrefElementType)
        } else if indices.len() != memref.shape.len() {
            Err(
                StoreOpVerifyError::NumIndicesDoesNotMatchMemrefRank {
                    expected: memref.shape.len() as usize,
                    got: indices.len() as usize,
                },
            )
        } else if !ir::all_index(ctx, indices) {
            Err(StoreOpVerifyError::IndexOperandNotOfIndexType)
        } else {
            Ok(())
        }
    }

    /// The value is of the element type, and there is one index per dimension.
    pub fn verify(&self, ctx: &Context) -> (r: Result<(), StoreOpVerifyError>)
        requires
            self.wf(*ctx),
        ensures
            r == self.verdict(*ctx),
    {
        let value: Value = self.get_value();
        let memref: Value = self.get_destination_memref();
        let indices: Vec<Value> = self.get_indices();
        proof {
            assert(ctx.has_value(self.op.operands@[1]));
            assert forall|i: int| 0 <= i < indices@.len() implies ctx.has_value(
                #[trigger] indices@[i],
            ) by {
                assert(ctx.has_value(self.op.operands@[i + 2]));
            }
        }
        let memref_ty = ctx.ranked_memref(memref.ty).unwrap();
        if value.ty != memref_ty.element_type {
            return Err(StoreOpVerifyError::FirstOperandNotSameTypeAsMemrefElementType);
        }
        if indices.len() != memref_ty.rank() {
            return Err(
                StoreOpVerifyError::NumIndicesDoesNotMatchMemrefRank {
                    expected: memref_ty.rank(),
                    got: indices.len(),
                },
            );
        }
        if ir::find_non_index(ctx, indices.as_slice()).is_some() {
            return Err(StoreOpVerifyError::IndexOperandNotOfIndexType);
        }
        Ok(())
    }
}

/// Loads a value from a memref at an index per dimension.
#[derive(Debug)]
pub struct LoadOp {
    pub op: Operation,
}

#[derive(Clone, Copy, Debug, PartialEq, Eq, Structural)]
pub enum LoadOpVerifyErr {
    NumIndicesDoesNotMatchMemrefRank { expected: usize, got: usize },
    IndexOperandNotOfIndexType,
    ResultTypeNotSameAsMemrefElementType,
}

impl LoadOp {
    /// A ranked memref, any number of indices, and one result.
    pub open spec fn wf(&self, ctx: Context) -> bool {
        &&& self.op.typed_in(ctx)
        &&& self.op.operands@.len() >= 1
        &&& self.op.result_types@.len() == 1
        &&& ctx.as_memref(self.op.operands@[0].ty) is Some
    }

    pub fn new(element_ty: TypeHandle, memref: Value, indices: Vec<Value>) -> (r: Self)
        ensures
            r.op.operands@ == seq![memref] + indices@,
            r.op.result_types@ == seq![element_ty],
    {
        let mut operands: Vec<Value> = vec![memref];
        let mut rest: Vec<Value> = indices;
        operands.append(&mut rest);
        LoadOp { op: Operation { operands, result_types: vec![element_ty] } }
    }

    /// The memref to load from.
    pub fn get_source_memref(&self) -> (r: Value)
        requires
            self.op.operands@.len() >= 1,
        ensures
            r == self.op.operands@[0],
    {
        self.op.operands[0]
    }

    /// Where to load from.
    pub fn get_indices(&self) -> (r: Vec<Value>)
        requires
            self.op.operands@.len() >= 1,
        ensures
            r@ == self.op.operands@.skip(1),
    {
        ir::values_from(&self.op.operands, 1)
    }

    pub open spec fn verdict(&self, ctx: Context) -> Result<(), LoadOpVerifyErr> {
        let memref = ctx.as_memref(self.op.operands@[0].ty)->Some_0;
        let indices = self.op.operands@.skip(1);
        if self.op.result_types@[0] != memref.element_type {
            Err(LoadOpVerifyErr::ResultTypeNotSameAsMemrefElementType)
        } else if indices.len() != memref.shape.len() {
            Err(
                LoadOpVerifyErr::NumIndicesDoesNotMatchMemrefRank {
                    expected: memref.shape.len() as usize,
                    got: indices.len() as usize,
                },
            )
        } else if !ir::all_index(ctx, indices) {
            Err(LoadOpVerifyErr::IndexOperandNotOfIndexType)
        } else {
            Ok(())
        }
    }

    /// The result is of the element type, and there is one index per dimension.
    pub fn verify(&self, ctx: &Context) -> (r: Result<(), LoadOpVerifyErr>)
        requires
            self.wf(*ctx),
        ensures
            r == self.verdict(*ctx),
    {
        let memref: Value = self.get_source_memref();
        let indices: Vec<Value> = self.get_indices();
        proof {
            assert(ctx.has_value(self.op.operands@[0]));
            assert forall|i: int| 0 <= i < indices@.len() implies ctx.has_value(
                #[trigger] indices@[i],
            ) by {
                assert(ctx.has_value(self.op.operands@[i + 1]));
            }
        }
        let memref_ty = ctx.ranked_memref(memref.ty).unwrap();
        if self.op.result_types[0] != memref_ty.element_type {
            return Err(LoadOpVerifyErr::ResultTypeNotSameAsMemrefElementType);
        }
        if indices.len() != memref_ty.rank() {
            return Err(
                LoadOpVerifyErr::NumIndicesDoesNotMatchMemrefRank {
                    expected: memref_ty.rank(),
                    got: indices.len(),
                },
            );
        }
        if ir::find_non_index(ctx, indices.as_slice()).is_some() {
            return Err(LoadOpVerifyErr::IndexOperandNotOfIndexType);
        }
        Ok(())
    }
}

/// Queries the size of a dimension of a memref.
#[derive(Debug)]
pub struct DimOp {
    pub op: Operation,
}

impl DimOp {
    pub fn new(ctx: &mut Context, memref: Value, dim_index: Value) -> (r: Self)
        requires
            old(ctx).wf(),
        ensures
            final(ctx).wf(),
            final(ctx).extends(*old(ctx)),
            r.op.operands@ == seq![memref, dim_index],
            r.op.result_types@.len() == 1,
            final(ctx).has(r.op.result_types@[0]),
            final(ctx).get(r.op.result_types@[0]) is Index,
    {
        let index_ty = ctx.intern(TypeObj::Index);
        DimOp { op: Operation { operands: vec![memref, dim_index], result_types: vec![index_ty] } }
    }

    /// The memref to query.
    pub fn get_source_memref(&self) -> (r: Value)
        requires
            self.op.operands@.len() == 2,
        ensures
            r == self.op.operands@[0],
    {
        self.op.operands[0]
    }

    /// The number of the dimension to query.
    pub fn get_dimension_index(&self) -> (r: Value)
        requires
            self.op.operands@.len() == 2,
        ensures
            r == self.op.operands@[1],
    {
        self.op.operands[1]
    }
}

/// Adds two memrefs element by element and stores into a third one.
#[derive(Debug)]
pub struct AddOp {
    pub op: Operation,
}

impl AddOp {
    pub fn new(res: Value, lhs: Value, rhs: Value) -> (r: Self)
        ensures
            r.op.operands@ == seq![res, lhs, rhs],
            r.op.result_types@.len() == 0,
    {
        AddOp { op: Operation { operands: vec![res, lhs, rhs], result_types: Vec::new() } }
    }
}

/// Subtracts two memrefs element by element and stores into a third one.
#[derive(Debug)]
pub struct SubOp {
    pub op: Operation,
}

impl SubOp {
    pub fn new(res: Value, lhs: Value, rhs: Value) -> (r: Self)
        ensures
            r.op.operands@ == seq![res, lhs, rhs],
            r.op.result_types@.len() == 0,
    {
        SubOp { op: Operation { operands: vec![res, lhs, rhs], result_types: Vec::new() } }
    }
}

/// Multiplies two memrefs element by element and stores into a third one.
#[derive(Debug)]
pub struct MulOp {
    pub op: Operation,
}

impl MulOp {
    pub fn new(res: Value, lhs: Value, rhs: Value) -> (r: Self)
        ensures
            r.op.operands@ == seq![res, lhs, rhs],
            r.op.result_types@.len() == 0,
    {
        MulOp { op: Operation { operands: vec![res, lhs, rhs], result_types: Vec::new() } }
    }
}

/// Divides two memrefs element by element and stores into a third one.
#[derive(Debug)]
pub struct DivOp {
    pub op: Operation,
}

impl DivOp {
    pub fn new(res: Value, lhs: Value, rhs: Value) -> (r: Self)
        ensures
            r.op.operands@ == seq![res, lhs, rhs],
            r.op.result_types@.len() == 0,
    {
        DivOp { op: Operation { operands: vec![res, lhs, rhs], result_types: Vec::new() } }
    }
}

/// Adds the product of two matrices to a third one: the sum of `lhs[i, k] * rhs[k, j]` over all
/// `k` is added to what `res[i, j]` holds, where `res` is M by N, `lhs` is M by K and `rhs` is
/// K by N.
#[derive(Debug)]
pub struct MatMulOp {
    pub op: Operation,
}

#[derive(Clone, Copy, Debug, PartialEq, Eq, Structural)]
pub enum MatMulOpVerifyErr {
    OperandNot2DMemref,
    ElementTypeMismatch,
    InnerDimMismatch { lhs_k: usize, rhs_k: usize },
    ResultDimMismatch { dim: usize, result_d: usize, expected: usize },
}

impl MatMulOp {
    /// Three operands.
    pub open spec fn wf(&self, ctx: Context) -> bool {
        &&& self.op.typed_in(ctx)
        &&& self.op.operands@.len() == 3
    }

    pub fn new(res: Value, lhs: Value, rhs: Value) -> (r: Self)
        ensures
            r.op.operands@ == seq![res, lhs, rhs],
            r.op.result_types@.len() == 0,
    {
        MatMulOp { op: Operation { operands: vec![res, lhs, rhs], result_types: Vec::new() } }
    }

    /// The memref to store into.
    pub fn get_result_memref(&self) -> (r: Value)
        requires
            self.op.operands@.len() == 3,
        ensures
            r == self.op.operands@[0],
    {
        self.op.operands[0]
    }

    /// The left factor.
    pub fn get_lhs_memref(&self) -> (r: Value)
        requires
            self.op.operands@.len() == 3,
        ensures
            r == self.op.operands@[1],
    {
        self.op.operands[1]
    }

    /// The right factor.
    pub fn get_rhs_memref(&self) -> (r: Value)
        requires
            self.op.operands@.len() == 3,
        ensures
            r == self.op.operands@[2],
    {
        self.op.operands[2]
    }

    pub open spec fn verdict(&self, ctx: Context) -> Result<(), MatMulOpVerifyErr> {
        match (
            ctx.as_memref(self.op.operands@[0].ty),
            ctx.as_memref(self.op.operands@[1].ty),
            ctx.as_memref(self.op.operands@[2].ty),
        ) {
            (Some(res), Some(lhs), Some(rhs)) => if res.shape.len() != 2 || lhs.shape.len() != 2
                || rhs.shape.len() != 2 {
                Err(MatMulOpVerifyErr::OperandNot2DMemref)
            } else if rhs.element_type != lhs.element_type || res.element_type
                != lhs.element_type {
                Err(MatMulOpVerifyErr::ElementTypeMismatch)
            } else if type_interfaces::static_mismatch(lhs.shape[1], rhs.shape[0]) {
                Err(
                    MatMulOpVerifyErr::InnerDimMismatch {
                        lhs_k: lhs.shape[1]->Static_0,
                        rhs_k: rhs.shape[0]->Static_0,
                    },
                )
            } else if type_interfaces::static_mismatch(lhs.shape[0], res.shape[0]) {
                Err(
                    MatMulOpVerifyErr::ResultDimMismatch {
                        dim: 0,
                        result_d: res.shape[0]->Static_0,
                        expected: lhs.shape[0]->Static_0,
                    },
                )
            } else if type_interfaces::static_mismatch(rhs.shape[1], res.shape[1]) {
                Err(
                    MatMulOpVerifyErr::ResultDimMismatch {
                        dim: 1,
                        result_d: res.shape[1]->Static_0,
                        expected: rhs.shape[1]->Static_0,
                    },
                )
            } else {
                Ok(())
            },
            _ => Err(MatMulOpVerifyErr::OperandNot2DMemref),
        }
    }

    /// The operands are matrices of one element type whose dimensions fit together.
    pub fn verify(&self, ctx: &Context) -> (r: Result<(), MatMulOpVerifyErr>)
        requires
            self.wf(*ctx),
        ensures
            r == self.verdict(*ctx),
    {
        proof {
            assert(ctx.has_value(self.op.operands@[0]));
            assert(ctx.has_value(self.op.operands@[1]));
            assert(ctx.has_value(self.op.operands@[2]));
        }
        let (res_ty, lhs_ty, rhs_ty) = match (
            ctx.ranked_memref(self.get_result_memref().ty),
            ctx.ranked_memref(self.get_lhs_memref().ty),
            ctx.ranked_memref(self.get_rhs_memref().ty),
        ) {
            (Some(res), Some(lhs), Some(rhs)) => (res, lhs, rhs),
            _ => {
                return Err(MatMulOpVerifyErr::OperandNot2DMemref);
            },
        };
        if res_ty.rank() != 2 || lhs_ty.rank() != 2 || rhs_ty.rank() != 2 {
            return Err(MatMulOpVerifyErr::OperandNot2DMemref);
        }
        if rhs_ty.element_type != lhs_ty.element_type || res_ty.element_type
            != lhs_ty.element_type {
            return Err(MatMulOpVerifyErr::ElementTypeMismatch);
        }
        if let (Dimension::Static(lhs_k), Dimension::Static(rhs_k)) = (
            lhs_ty.shape[1],
            rhs_ty.shape[0],
        ) {
            if lhs_k != rhs_k {
                return Err(MatMulOpVerifyErr::InnerDimMismatch { lhs_k, rhs_k });
            }
        }
        if let (Dimension::Static(lhs_m), Dimension::Static(res_m)) = (
            lhs_ty.shape[0],
            res_ty.shape[0],
        ) {
            if lhs_m != res_m {
                return Err(
                    MatMulOpVerifyErr::ResultDimMismatch {
                        dim: 0,
                        result_d: res_m,
                        expected: lhs_m,
                    },
                );
            }
        }
        if let (Dimension::Static(rhs_n), Dimension::Static(res_n)) = (
            rhs_ty.shape[1],
            res_ty.shape[1],
        ) {
            if rhs_n != res_n {
                return Err(
                    MatMulOpVerifyErr::ResultDimMismatch {
                        dim: 1,
                        result_d: res_n,
                        expected: rhs_n,
                    },
                );
            }
        }
        Ok(())
    }
}

/// Copies a memref into another one of the same shape.
#[derive(Debug)]
pub struct CopyOp {
    pub op: Operation,
}

#[derive(Clone, Copy, Debug, PartialEq, Eq, Structural)]
pub enum CopyOpVerifyErr {
    ElementTypeMismatch,
    RankMismatch,
    IncompatibleShapes,
}

impl CopyOp {
    /// Two operands, both ranked memrefs.
    pub open spec fn wf(&self, ctx: Context) -> bool {
        &&& self.op.typed_in(ctx)
        &&& self.op.operands@.len() == 2
        &&& ctx.as_memref(self.op.operands@[0].ty) is Some
        &&& ctx.as_memref(self.op.operands@[1].ty) is Some
    }

    pub fn new(destination: Value, source: Value) -> (r: Self)
        ensures
            r.op.operands@ == seq![destination, source],
            r.op.result_types@.len() == 0,
    {
        CopyOp { op: Operation { operands: vec![destination, source], result_types: Vec::new() } }
    }

    /// The memref to copy into.
    pub fn destination(&self) -> (r: Value)
        requires
            self.op.operands@.len() == 2,
        ensures
            r == self.op.operands@[0],
    {
        self.op.operands[0]
    }

    /// The memref to copy from.
    pub fn source(&self) -> (r: Value)
        requires
            self.op.operands@.len() == 2,
        ensures
            r == self.op.operands@[1],
    {
        self.op.operands[1]
    }

    pub open spec fn verdict(&self, ctx: Context) -> Result<(), CopyOpVerifyErr> {
        let destination = ctx.as_memref(self.op.operands@[0].ty)->Some_0;
        let source = ctx.as_memref(self.op.operands@[1].ty)->Some_0;
        if destination.element_type != source.element_type {
            Err(CopyOpVerifyErr::ElementTypeMismatch)
        } else if destination.shape.len() != source.shape.len() {
            Err(CopyOpVerifyErr::RankMismatch)
        } else if !type_interfaces::compatible_shapes(destination.shape, source.shape) {
            Err(CopyOpVerifyErr::IncompatibleShapes)
        } else {
            Ok(())
        }
    }

    /// The operands agree in element type, rank and static dimensions.
    pub fn verify(&self, ctx: &Context) -> (r: Result<(), CopyOpVerifyErr>)
        requires
            self.wf(*ctx),
        ensures
            r == self.verdict(*ctx),
    {
        proof {
            assert(ctx.has_value(self.op.operands@[0]));
            assert(ctx.has_value(self.op.operands@[1]));
        }
        let destination_ty = ctx.ranked_memref(self.destination().ty).unwrap();
        let source_ty = ctx.ranked_memref(self.source().ty).unwrap();
        if destination_ty.element_type != source_ty.element_type {
            return Err(CopyOpVerifyErr::ElementTypeMismatch);
        }
        if destination_ty.rank() != source_ty.rank() {
            return Err(CopyOpVerifyErr::RankMismatch);
        }
        if !type_interfaces::shapes_compatible(&destination_ty.shape, &source_ty.shape) {
            return Err(CopyOpVerifyErr::IncompatibleShapes);
        }
        Ok(())
    }
}

/// Makes a view of a memref with an offset, a size and a step in each dimension.
///
/// The parameters that are values follow the source among the operands.
#[derive(Debug)]
pub struct SubviewOp {
    pub op: Operation,
    pub slice_params: Option<SliceParamsAttr>,
}

#[derive(Clone, Copy, Debug, PartialEq, Eq, Structural)]
pub enum SubviewOpVerifyErr {
    ResultSourceRankMismatch,
    NonIndexOperand { index: usize, ty: TypeHandle },
    NumDynamicOperandsMismatch { expected: usize, got: usize },
    NumOffsetsMismatch { expected: usize, got: usize },
    NumSizesMismatch { expected: usize, got: usize },
    NumStepsMismatch { expected: usize, got: usize },
    MissingSliceParamsAttr,
    InvalidStaticStep { dim: usize },
}

impl SubviewOp {
    /// A source and a result that are ranked memrefs.
    pub open spec fn wf(&self, ctx: Context) -> bool {
        &&& self.op.typed_in(ctx)
        &&& self.op.operands@.len() >= 1
        &&& self.op.result_types@.len() == 1
        &&& ctx.as_memref(self.op.operands@[0].ty) is Some
        &&& ctx.as_memref(self.op.result_types@[0]) is Some
    }

    /// The parameters are there, and so are the operands that they refer to.
    pub open spec fn has_params(&self) -> bool {
        self.slice_params matches Some(params) && params.refers_within(self.op.operands@.len())
    }

    pub open spec fn offsets(&self) -> Seq<SliceParam> {
        slices::params_of(self.slice_params->Some_0.offsets@, self.op.operands@)
    }

    pub open spec fn sizes(&self) -> Seq<SliceParam> {
        slices::params_of(self.slice_params->Some_0.sizes@, self.op.operands@)
    }

    pub open spec fn steps(&self) -> Seq<SliceParam> {
        slices::params_of(self.slice_params->Some_0.steps@, self.op.operands@)
    }

    pub open spec fn verdict(&self, ctx: Context) -> Result<(), SubviewOpVerifyErr> {
        let rank = ctx.as_memref(self.op.operands@[0].ty)->Some_0.shape.len();
        let dynamic = self.op.operands@.skip(1);
        if ctx.as_memref(self.op.result_types@[0])->Some_0.shape.len() != rank {
            Err(SubviewOpVerifyErr::ResultSourceRankMismatch)
        } else {
            match self.slice_params {
                None => Err(SubviewOpVerifyErr::MissingSliceParamsAttr),
                Some(params) => if params.offsets@.len() != rank {
                    Err(
                        SubviewOpVerifyErr::NumOffsetsMismatch {
                            expected: rank as usize,
                            got: params.offsets@.len() as usize,
                        },
                    )
                } else if params.sizes@.len() != rank {
                    Err(
                        SubviewOpVerifyErr::NumSizesMismatch {
                            expected: rank as usize,
                            got: params.sizes@.len() as usize,
                        },
                    )
                } else if params.steps@.len() != rank {
                    Err(
                        SubviewOpVerifyErr::NumStepsMismatch {
                            expected: rank as usize,
                            got: params.steps@.len() as usize,
                        },
                    )
                } else if let Some(dim) = slices::first_zero_step(params.steps@) {
                    Err(SubviewOpVerifyErr::InvalidStaticStep { dim: dim as usize })
                } else if let Some(i) = crate::search::first_where(
                    dynamic.len(),
                    ir::non_index_at(ctx, dynamic),
                ) {
                    Err(
                        SubviewOpVerifyErr::NonIndexOperand {
                            index: (i + 1) as usize,
                            ty: dynamic[i].ty,
                        },
                    )
                } else if dynamic.len() != params.num_dynamic() {
                    Err(
                        SubviewOpVerifyErr::NumDynamicOperandsMismatch {
                            expected: params.num_dynamic() as usize,
                            got: dynamic.len() as usize,
                        },
                    )
                } else {
                    Ok(())
                },
            }
        }
    }

    /// There is one parameter of each kind per dimension, no constant step is zero, and the
    /// further operands are the values among the parameters, of index type.
    pub fn verify(&self, ctx: &Context) -> (r: Result<(), SubviewOpVerifyErr>)
        requires
            self.wf(*ctx),
            self.slice_params matches Some(params) ==> params.countable(),
        ensures
            r == self.verdict(*ctx),
    {
        let dynamic: Vec<Value> = self.dynamic_operands();
        proof {
            assert(ctx.has_value(self.op.operands@[0]));
            assert(ctx.has(self.op.result_types@[0]));
            assert forall|i: int| 0 <= i < dynamic@.len() implies ctx.has_value(
                #[trigger] dynamic@[i],
            ) by {
                assert(ctx.has_value(self.op.operands@[i + 1]));
            }
        }
        let source_ty = ctx.ranked_memref(self.source().ty).unwrap();
        let result_ty = ctx.ranked_memref(self.op.result_types[0]).unwrap();
        let rank: usize = source_ty.rank();
        if result_ty.rank() != rank {
            return Err(SubviewOpVerifyErr::ResultSourceRankMismatch);
        }
        let params = match &self.slice_params {
            Some(params) => params,
            None => {
                return Err(SubviewOpVerifyErr::MissingSliceParamsAttr);
            },
        };
        if params.offsets.len() != rank {
            return Err(
                SubviewOpVerifyErr::NumOffsetsMismatch {
                    expected: rank,
                    got: params.offsets.len(),
                },
            );
        }
        if params.sizes.len() != rank {
            return Err(
                SubviewOpVerifyErr::NumSizesMismatch { expected: rank, got: params.sizes.len() },
            );
        }
        if params.steps.len() != rank {
            return Err(
                SubviewOpVerifyErr::NumStepsMismatch { expected: rank, got: params.steps.len() },
            );
        }
        if let Some(dim) = slices::find_zero_step(&params.steps) {
            return Err(SubviewOpVerifyErr::InvalidStaticStep { dim });
        }
        let expected: usize = slices::count_dynamic_params(params);
        if let Some(i) = ir::find_non_index(ctx, dynamic.as_slice()) {
            proof {
                crate::search::lemma_first_where(
                    dynamic@.len(),
                    ir::non_index_at(*ctx, dynamic@),
                );
                assert(self.op.operands.len() == dynamic@.len() + 1);
            }
            return Err(
                SubviewOpVerifyErr::NonIndexOperand { index: i + 1, ty: dynamic[i].ty },
            );
        }
        if dynamic.len() != expected {
            return Err(
                SubviewOpVerifyErr::NumDynamicOperandsMismatch { expected, got: dynamic.len() },
            );
        }
        Ok(())
    }

    /// Makes a view of `source`. The type of the result has the element type of the source
    /// and the given sizes.
    pub fn new(
        ctx: &mut Context,
        source: Value,
        offsets: Vec<SliceParam>,
        sizes: Vec<SliceParam>,
        steps: Vec<SliceParam>,
    ) -> (r: Self)
        requires
            old(ctx).wf(),
            old(ctx).has_value(source),
            old(ctx).as_memref(source.ty) is Some,
            1 + offsets@.len() + sizes@.len() + steps@.len() <= usize::MAX,
        ensures
            final(ctx).wf(),
            final(ctx).extends(*old(ctx)),
            final(ctx).has(r.op.result_types@[0]),
            final(ctx).as_memref(r.op.result_types@[0]) == Some(
                ir::ShapeView {
                    element_type: old(ctx).as_memref(source.ty)->Some_0.element_type,
                    shape: slices::slice_shape(sizes@),
                },
            ),
            r.op.result_types@.len() == 1,
            r.op.operands@ == seq![source] + (slices::dynamic_values(offsets@)
                + slices::dynamic_values(sizes@) + slices::dynamic_values(steps@)),
            r.has_params(),
            r.offsets() == offsets@,
            r.sizes() == sizes@,
            r.steps() == steps@,
            r.slice_params->Some_0.num_dynamic() + 1 == r.op.operands@.len(),
    {
        let element_type: TypeHandle = ctx.ranked_memref(source.ty).unwrap().element_type;
        let shape: Vec<Dimension> = slices::shape_of_sizes(&sizes);
        let result_type: TypeHandle = RankedMemrefType::get(ctx, element_type, shape);
        Self::new_with_result_type(source, offsets, sizes, steps, result_type)
    }

    /// Makes a view of `source` with the given type.
    pub fn new_with_result_type(
        source: Value,
        offsets: Vec<SliceParam>,
        sizes: Vec<SliceParam>,
        steps: Vec<SliceParam>,
        result_type: TypeHandle,
    ) -> (r: Self)
        requires
            1 + offsets@.len() + sizes@.len() + steps@.len() <= usize::MAX,
        ensures
            r.op.result_types@ == seq![result_type],
            r.op.operands@ == seq![source] + (slices::dynamic_values(offsets@)
                + slices::dynamic_values(sizes@) + slices::dynamic_values(steps@)),
            r.has_params(),
            r.offsets() == offsets@,
            r.sizes() == sizes@,
            r.steps() == steps@,
            r.slice_params->Some_0.num_dynamic() + 1 == r.op.operands@.len(),
    {
        let mut operands: Vec<Value> = vec![source];
        let params = slices::store_slice(&offsets, &sizes, &steps, &mut operands);
        proof {
            slices::law_slice_round_trip(offsets@, sizes@, steps@, seq![source]);
        }
        SubviewOp {
            op: Operation { operands, result_types: vec![result_type] },
            slice_params: Some(params),
        }
    }

    /// The memref that is viewed.
    pub fn source(&self) -> (r: Value)
        requires
            self.op.operands@.len() >= 1,
        ensures
            r == self.op.operands@[0],
    {
        self.op.operands[0]
    }

    /// The offset in each dimension.
    pub fn slice_offsets(&self) -> (r: Vec<SliceParam>)
        requires
            self.has_params(),
        ensures
            r@ == self.offsets(),
    {
        slices::load_params(&self.slice_params.as_ref().unwrap().offsets, &self.op.operands)
    }

    /// The size in each dimension.
    pub fn slice_sizes(&self) -> (r: Vec<SliceParam>)
        requires
            self.has_params(),
        ensures
            r@ == self.sizes(),
    {
        slices::load_params(&self.slice_params.as_ref().unwrap().sizes, &self.op.operands)
    }

    /// The step in each dimension.
    pub fn slice_steps(&self) -> (r: Vec<SliceParam>)
        requires
            self.has_params(),
        ensures
            r@ == self.steps(),
    {
        slices::load_params(&self.slice_params.as_ref().unwrap().steps, &self.op.operands)
    }

    /// The values among the parameters.
    pub fn dynamic_operands(&self) -> (r: Vec<Value>)
        requires
            self.op.operands@.len() >= 1,
        ensures
            r@ == self.op.operands@.skip(1),
    {
        ir::values_from(&self.op.operands, 1)
    }
}

/// A view with one parameter of each kind per dimension is valid exactly if no constant step is
/// zero and the values among the parameters are of index type.
pub proof fn law_subview_verifies(ctx: Context, op: SubviewOp)
    requires
        op.wf(ctx),
        op.has_params(),
        ({
            let rank = ctx.as_memref(op.op.operands@[0].ty)->0.shape.len();
            &&& ctx.as_memref(op.op.result_types@[0])->0.shape.len() == rank
            &&& op.offsets().len() == rank
            &&& op.sizes().len() == rank
            &&& op.steps().len() == rank
        }),
        op.slice_params->0.num_dynamic() + 1 == op.op.operands@.len(),
    ensures
        op.verdict(ctx) is Ok <==> slices::steps_move(op.steps()) && ir::all_index(
            ctx,
            op.op.operands@.skip(1),
        ),
{
    slices::lemma_steps_move(op.slice_params->0.steps@, op.op.operands@);
    ir::lemma_all_index(ctx, op.op.operands@.skip(1));
}

/// Gives a memref another shape, without moving its elements.
///
/// The source and the result have the same element type and the same number of elements.
/// The sizes of the dynamic dimensions of the result follow the source among the operands.
#[derive(Debug)]
pub struct ReshapeOp {
    pub op: Operation,
}

#[derive(Clone, Copy, Debug, PartialEq, Eq, Structural)]
pub enum ReshapeOpVerifyErr {
    SourceNotRankedMemref,
    ElementTypeMismatch,
    DynDimCountMismatch { expected: usize, got: usize },
    DynDimNotIndex,
    ElementCountMismatch { src_count: usize, result_count: usize },
}

impl ReshapeOp {
    /// A source, and a result that is a ranked memref.
    pub open spec fn wf(&self, ctx: Context) -> bool {
        &&& self.op.typed_in(ctx)
        &&& self.op.operands@.len() >= 1
        &&& self.op.result_types@.len() == 1
        &&& ctx.as_memref(self.op.result_types@[0]) is Some
    }

    /// The elements of fully static shapes can be counted in a machine word.
    pub open spec fn countable(&self, ctx: Context) -> bool {
        &&& ctx.as_memref(self.op.operands@[0].ty) matches Some(source)
            ==> type_interfaces::countable(source.shape)
        &&& ctx.as_memref(self.op.result_types@[0]) matches Some(result)
            ==> type_interfaces::countable(result.shape)
    }

    pub fn new(source: Value, dynamic_dimensions: Vec<Value>, result_type: TypeHandle) -> (r: Self)
        ensures
            r.op.operands@ == seq![source] + dynamic_dimensions@,
            r.op.result_types@ == seq![result_type],
    {
        let mut operands: Vec<Value> = vec![source];
        let mut rest: Vec<Value> = dynamic_dimensions;
        operands.append(&mut rest);
        ReshapeOp { op: Operation { operands, result_types: vec![result_type] } }
    }

    /// The memref to reshape.
    pub fn get_source(&self) -> (r: Value)
        requires
            self.op.operands@.len() >= 1,
        ensures
            r == self.op.operands@[0],
    {
        self.op.operands[0]
    }

    /// The sizes of the dynamic dimensions of the result.
    pub fn get_dynamic_dimensions(&self) -> (r: Vec<Value>)
        requires
            self.op.operands@.len() >= 1,
        ensures
            r@ == self.op.operands@.skip(1),
    {
        ir::values_from(&self.op.operands, 1)
    }

    pub open spec fn verdict(&self, ctx: Context) -> Result<(), ReshapeOpVerifyErr> {
        let result = ctx.as_memref(self.op.result_types@[0])->Some_0;
        let dynamic = self.op.operands@.skip(1);
        match ctx.as_memref(self.op.operands@[0].ty) {
            None => Err(ReshapeOpVerifyErr::SourceNotRankedMemref),
            Some(source) => if source.element_type != result.element_type {
                Err(ReshapeOpVerifyErr::ElementTypeMismatch)
            } else if dynamic.len() != type_interfaces::num_dynamic(result.shape) {
                Err(
                    ReshapeOpVerifyErr::DynDimCountMismatch {
                        expected: type_interfaces::num_dynamic(result.shape) as usize,
                        got: dynamic.len() as usize,
                    },
                )
            } else if !ir::all_index(ctx, dynamic) {
                Err(ReshapeOpVerifyErr::DynDimNotIndex)
            } else if type_interfaces::fully_static(source.shape)
                && type_interfaces::fully_static(result.shape)
                && type_interfaces::static_elements(source.shape)
                != type_interfaces::static_elements(result.shape) {
                Err(
                    ReshapeOpVerifyErr::ElementCountMismatch {
                        src_count: type_interfaces::static_elements(source.shape) as usize,
                        result_count: type_interfaces::static_elements(result.shape) as usize,
                    },
                )
            } else {
                Ok(())
            },
        }
    }

    /// The element types agree, the sizes of the dynamic dimensions are there, and so many
    /// elements go in as come out, where both numbers are known.
    pub fn verify(&self, ctx: &Context) -> (r: Result<(), ReshapeOpVerifyErr>)
        requires
            self.wf(*ctx),
            self.countable(*ctx),
        ensures
            r == self.verdict(*ctx),
    {
        let dynamic: Vec<Value> = self.get_dynamic_dimensions();
        proof {
            assert(ctx.has_value(self.op.operands@[0]));
            assert(ctx.has(self.op.result_types@[0]));
            assert forall|i: int| 0 <= i < dynamic@.len() implies ctx.has_value(
                #[trigger] dynamic@[i],
            ) by {
                assert(ctx.has_value(self.op.operands@[i + 1]));
            }
        }
        let source_ty = match ctx.ranked_memref(self.get_source().ty) {
            Some(ty) => ty,
            None => {
                return Err(ReshapeOpVerifyErr::SourceNotRankedMemref);
            },
        };
        let result_ty = ctx.ranked_memref(self.op.result_types[0]).unwrap();
        if source_ty.element_type != result_ty.element_type {
            return Err(ReshapeOpVerifyErr::ElementTypeMismatch);
        }
        let expected: usize = result_ty.num_dynamic_dimensions();
        if dynamic.len() != expected {
            return Err(
                ReshapeOpVerifyErr::DynDimCountMismatch { expected, got: dynamic.len() },
            );
        }
        if ir::find_non_index(ctx, dynamic.as_slice()).is_some() {
            return Err(ReshapeOpVerifyErr::DynDimNotIndex);
        }
        if let (Some(src_count), Some(result_count)) = (
            source_ty.num_elements(),
            result_ty.num_elements(),
        ) {
            if src_count != result_count {
                return Err(
                    ReshapeOpVerifyErr::ElementCountMismatch { src_count, result_count },
                );
            }
        }
        Ok(())
    }
}

} // verus!
